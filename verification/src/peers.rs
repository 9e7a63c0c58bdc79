//! The peers that a trie download draws on.
use crate::sync_state::{SyncStateInner, SyncStateView};
use crate::types::{Digest, GetTrieParams};
use vstd::prelude::*;
use vstd::string::*;

verus! {

/// How long a peer has to answer before it is passed over, in seconds.
pub const PEER_TIMEOUT_SECS: u64 = 1;

/// The decimal digit of a number below ten.
pub open spec fn digit_char(digit: nat) -> char {
    seq!['0', '1', '2', '3', '4', '5', '6', '7', '8', '9'][digit as int]
}

/// The decimal notation of a number.
pub open spec fn decimal(number: nat) -> Seq<char>
    decreases number,
{
    if number < 10 {
        seq![digit_char(number)]
    } else {
        decimal(number / 10).push(digit_char(number % 10))
    }
}

/// The decimal digit of a number below ten.
fn digit_to_str(digit: u16) -> (text: &'static str)
    requires
        digit < 10,
    ensures
        text@ == seq![digit_char(digit as nat)],
{
    proof {
        reveal_strlit("0");
        reveal_strlit("1");
        reveal_strlit("2");
        reveal_strlit("3");
        reveal_strlit("4");
        reveal_strlit("5");
        reveal_strlit("6");
        reveal_strlit("7");
        reveal_strlit("8");
        reveal_strlit("9");
    }
    let text = match digit {
        0 => "0",
        1 => "1",
        2 => "2",
        3 => "3",
        4 => "4",
        5 => "5",
        6 => "6",
        7 => "7",
        8 => "8",
        _ => "9",
    };
    assert(text@ =~= seq![digit_char(digit as nat)]);
    text
}

/// The decimal notation of a number.
fn number_to_string(number: u16) -> (text: String)
    ensures
        text@ == decimal(number as nat),
    decreases number,
{
    if number < 10 {
        digit_to_str(number).to_string()
    } else {
        let last_digit: u16 = number % 10;
        let text = number_to_string(number / 10).concat(digit_to_str(last_digit));
        assert(text@ =~= decimal(number as nat));
        text
    }
}

/// The address at which a peer takes remote procedure calls. `ip` is the peer's IP address as
/// text.
pub fn address_to_url(ip: &str, port: u16) -> (url: String)
    ensures
        url@ == "http://"@ + ip@ + ":"@ + decimal(port as nat) + "/rpc"@,
{
    "http://".to_string().concat(ip).concat(":").concat(number_to_string(port).as_str()).concat(
        "/rpc",
    )
}

/// What a peer is asked to find out whether it gives out tries: the trie of the state root.
pub fn probe_params(state_root_hash: Digest) -> (params: GetTrieParams)
    ensures
        params == (GetTrieParams { trie_key: state_root_hash }),
{
    GetTrieParams { trie_key: state_root_hash }
}

/// Whether a reply came in time and was no error.
pub open spec fn is_answer<R, E, T>(reply: Result<Result<R, E>, T>) -> bool {
    reply matches Ok(answer) && answer is Ok
}

/// The peers whose reply came in time and was no error, in order.
pub open spec fn answering<A, R, E, T>(
    peers: Seq<A>,
    replies: Seq<Result<Result<R, E>, T>>,
) -> Seq<A>
    decreases peers.len(),
{
    if peers.len() == 0 {
        Seq::empty()
    } else {
        let before = answering(peers.drop_last(), replies.drop_last());
        if is_answer(replies.last()) {
            before.push(peers.last())
        } else {
            before
        }
    }
}

/// Picks the peers that give out tries by their replies, one for each peer in order. The outer
/// error of a reply says that it did not come in time, the inner one that the request failed. What
/// the answer holds does not matter.
pub fn check_peers_for_get_trie_endpoint<A: Copy, R, E, T>(
    peers: &[A],
    replies: &Vec<Result<Result<R, E>, T>>,
) -> (tested_peers: Vec<A>)
    requires
        peers@.len() == replies@.len(),
    ensures
        tested_peers@ == answering(peers@, replies@),
{
    let mut tested_peers: Vec<A> = Vec::new();
    for i in 0..peers.len()
        invariant
            peers@.len() == replies@.len(),
            tested_peers@ == answering(peers@.take(i as int), replies@.take(i as int)),
    {
        match &replies[i] {
            Ok(Ok(_)) => {
                tested_peers.push(peers[i]);
            },
            _ => {},
        }
        assert(peers@.take(i + 1).drop_last() =~= peers@.take(i as int));
        assert(replies@.take(i + 1).drop_last() =~= replies@.take(i as int));
    }
    assert(peers@.take(peers@.len() as int) =~= peers@);
    assert(replies@.take(replies@.len() as int) =~= replies@);
    tested_peers
}

/// A peer is picked if and only if it answered: each picked peer answered, and each peer that
/// answered is picked.
pub proof fn peers_are_picked_by_answer<A, R, E, T>(
    peers: Seq<A>,
    replies: Seq<Result<Result<R, E>, T>>,
    peer: A,
)
    requires
        peers.len() == replies.len(),
    ensures
        answering(peers, replies).contains(peer) <==> exists|i: int|
            0 <= i < peers.len() && #[trigger] peers[i] == peer && is_answer(replies[i]),
    decreases peers.len(),
{
    if peers.len() > 0 {
        let (p, r) = (peers.drop_last(), replies.drop_last());
        peers_are_picked_by_answer(p, r, peer);
        let before = answering(p, r);
        let n = peers.len() - 1;
        if exists|i: int| 0 <= i < p.len() && #[trigger] p[i] == peer && is_answer(r[i]) {
            let i = choose|i: int| 0 <= i < p.len() && #[trigger] p[i] == peer && is_answer(r[i]);
            assert(peers[i] == peer && is_answer(replies[i]));
        }
        if exists|i: int| 0 <= i < peers.len() && #[trigger] peers[i] == peer && is_answer(
            replies[i],
        ) {
            let i = choose|i: int|
                0 <= i < peers.len() && #[trigger] peers[i] == peer && is_answer(replies[i]);
            if i < n {
                assert(p[i] == peer && is_answer(r[i]));
            }
        }
        if is_answer(replies.last()) {
            let after = before.push(peers.last());
            assert(after[before.len() as int] == peers[n]);
            if before.contains(peer) {
                let i = choose|i: int| 0 <= i < before.len() && before[i] == peer;
                assert(after[i] == peer);
            }
            if after.contains(peer) && peer != peers[n] {
                let i = choose|i: int| 0 <= i < after.len() && after[i] == peer;
                assert(before[i] == peer);
            }
        }
    }
}

/// How a trie download starts: what the workers share, and the peer of each worker.
pub struct SyncStart<A> {
    pub state: SyncStateInner,
    pub workers: Vec<A>,
}

/// Starts the download of the trie of a state root: it is the only job, and one worker is set on
/// each of the first peers, up to the given number.
pub fn sync_trie_store<A: Copy>(
    state_root_hash: Digest,
    peers: &[A],
    max_parallel_trie_fetches: usize,
) -> (start: SyncStart<A>)
    ensures
        start.state.well_formed(),
        start.state@ == SyncStateView::empty().with_job(state_root_hash),
        start.state@.queue == seq![state_root_hash],
        forall|trie: Digest| !start.state@.awaiting.contains_key(trie),
        start.workers@ == peers@.take(
            if max_parallel_trie_fetches <= peers@.len() {
                max_parallel_trie_fetches as int
            } else {
                peers@.len() as int
            },
        ),
{
    let mut state = SyncStateInner::new();
    state.push_job(state_root_hash);
    let worker_count: usize = if max_parallel_trie_fetches <= peers.len() {
        max_parallel_trie_fetches
    } else {
        peers.len()
    };
    let mut workers: Vec<A> = Vec::new();
    for i in 0..worker_count
        invariant
            worker_count <= peers@.len(),
            workers@ == peers@.take(i as int),
    {
        workers.push(peers[i]);
        assert(workers@ =~= peers@.take(i + 1));
    }
    SyncStart { state, workers }
}

/// The result of a trie download: the first error that a worker reported, if one did.
///
/// Without an error the trie need not be complete. Jobs are left on the queue if there was no
/// worker, or if every worker stopped because its peer had no bytes for a trie. When the trie is
/// complete is said by the laws `ended_download_has_stored_all` and
/// `undisturbed_download_has_stored_all` of [`crate::store_run`], and that a download ends at all
/// by `download_ends` of [`crate::end_run`].
pub fn sync_result<E>(first_error: Option<E>) -> (result: Result<(), E>)
    ensures
        result == match first_error {
            Some(error) => Err::<(), E>(error),
            None => Ok::<(), E>(()),
        },
{
    match first_error {
        Some(error) => Err(error),
        None => Ok(()),
    }
}

/// Each peer that answered is picked once, and in order: the picked peers are those at the
/// positions of the answers, taken from the first to the last. So there are as many as there are
/// answers.
pub proof fn picked_peers_stand_at_the_answers<A, R, E, T>(
    peers: Seq<A>,
    replies: Seq<Result<Result<R, E>, T>>,
) -> (positions: Seq<int>)
    requires
        peers.len() == replies.len(),
    ensures
        forall|j: int, k: int| 0 <= j < k < positions.len() ==> positions[j] < positions[k],
        forall|k: int|
            0 <= k < positions.len() ==> 0 <= #[trigger] positions[k] < replies.len() && (
            replies[positions[k]] matches Ok(Ok(_))),
        forall|i: int|
            0 <= i < replies.len() && (#[trigger] replies[i] matches Ok(Ok(_)))
                ==> positions.contains(i),
        answering(peers, replies).len() == positions.len(),
        forall|k: int|
            0 <= k < positions.len() ==> #[trigger] answering(peers, replies)[k]
                == peers[positions[k]],
    decreases peers.len(),
{
    if peers.len() == 0 {
        Seq::empty()
    } else {
        let (p, r) = (peers.drop_last(), replies.drop_last());
        let n = peers.len() - 1;
        let before = picked_peers_stand_at_the_answers(p, r);
        let picked = answering(peers, replies);
        if replies[n] matches Ok(Ok(_)) {
            let positions = before.push(n);
            assert(picked == answering(p, r).push(peers[n]));
            assert forall|i: int|
                0 <= i < replies.len() && (#[trigger] replies[i] matches Ok(
                    Ok(_),
                )) implies positions.contains(i) by {
                if i < n {
                    assert(r[i] == replies[i]);
                    assert(before.contains(i));
                    let k = choose|k: int| 0 <= k < before.len() && before[k] == i;
                    assert(positions[k] == i);
                } else {
                    assert(positions[before.len() as int] == n);
                }
            }
            positions
        } else {
            assert(picked == answering(p, r));
            assert forall|i: int|
                0 <= i < replies.len() && (#[trigger] replies[i] matches Ok(
                    Ok(_),
                )) implies before.contains(i) by {
                assert(r[i] == replies[i]);
            }
            before
        }
    }
}

/// Where all peers answer, all of them are picked; where none does, none is.
pub proof fn answers_of_all_pick_all<A, R, E, T>(
    peers: Seq<A>,
    replies: Seq<Result<Result<R, E>, T>>,
)
    requires
        peers.len() == replies.len(),
    ensures
        (forall|i: int| 0 <= i < replies.len() ==> (#[trigger] replies[i] matches Ok(Ok(_))))
            ==> answering(peers, replies) == peers,
        (forall|i: int| 0 <= i < replies.len() ==> !(#[trigger] replies[i] matches Ok(Ok(_))))
            ==> answering(peers, replies).len() == 0,
    decreases peers.len(),
{
    if peers.len() > 0 {
        let (p, r) = (peers.drop_last(), replies.drop_last());
        answers_of_all_pick_all(p, r);
        assert forall|i: int| 0 <= i < r.len() implies #[trigger] r[i] == replies[i] by {}
        assert(replies.last() == replies[replies.len() - 1]);
        assert(p.push(peers.last()) =~= peers);
    } else {
        assert(answering(peers, replies) =~= peers);
    }
}

/// The number that a row of decimal digits stands for.
pub open spec fn number_of(digits: Seq<char>) -> nat
    decreases digits.len(),
{
    if digits.len() == 0 {
        0
    } else {
        number_of(digits.drop_last()) * 10 + (digits.last() as nat - '0' as nat) as nat
    }
}

/// The decimal notation of a number reads back as that number, consists of decimal digits only,
/// and does not begin with a zero unless it is that of zero.
pub proof fn decimal_reads_back(number: nat)
    ensures
        number_of(decimal(number)) == number,
        decimal(number).len() > 0,
        forall|i: int|
            0 <= i < decimal(number).len() ==> '0' <= #[trigger] decimal(number)[i] <= '9',
        number > 0 ==> decimal(number)[0] != '0',
        number == 0 ==> decimal(number).len() == 1,
    decreases number,
{
    reveal_with_fuel(number_of, 2);
    if number < 10 {
        assert(decimal(number).drop_last() =~= Seq::empty());
    } else {
        decimal_reads_back(number / 10);
        assert(decimal(number).drop_last() =~= decimal(number / 10));
        assert(decimal(number)[0] == decimal(number / 10)[0]);
        assert forall|i: int| 0 <= i < decimal(number).len() implies '0' <= #[trigger] decimal(
            number,
        )[i] <= '9' by {
            if i < decimal(number).len() - 1 {
                assert(decimal(number)[i] == decimal(number / 10)[i]);
            }
        }
    }
}

/// The decimal notation of a number ends in its last digit, which stands behind the notation of
/// the number without that digit.
pub proof fn decimal_ends_in_last_digit(number: nat)
    ensures
        decimal(number).last() as nat == '0' as nat + number % 10,
        number < 10 ==> decimal(number).len() == 1,
        number >= 10 ==> decimal(number).drop_last() == decimal(number / 10),
{
    if number >= 10 {
        assert(decimal(number).drop_last() =~= decimal(number / 10));
    }
}

} // verus!
