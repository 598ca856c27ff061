//! The bookkeeping of a load balancer: which of the servers behind it
//! are alive, which one a connection is tried on next, and whether one
//! more request of a client is let through.

use vstd::prelude::*;

verus! {

/// The status sent for a request that cannot be read.
pub const BAD_REQUEST: u16 = 400;

/// The status sent for a request whose body is too large.
pub const PAYLOAD_TOO_LARGE: u16 = 413;

/// The status sent to a client that has asked too often.
pub const TOO_MANY_REQUESTS: u16 = 429;

/// The status sent when no server can be reached or a server fails.
pub const BAD_GATEWAY: u16 = 502;

/// Whether `name` is one of the texts of `list`.
pub open spec fn listed(list: Seq<String>, name: Seq<char>) -> bool {
    exists|j: int| 0 <= j < list.len() && (#[trigger] list[j])@ == name
}

/// Whether a server called `name` counts as alive after a round of
/// checks: a server found valid is alive, one found invalid and not
/// valid is not, and one that was not checked stays as it was.
pub open spec fn health_after(
    alive: bool,
    name: Seq<char>,
    invalid: Seq<String>,
    valid: Seq<String>,
) -> bool {
    if listed(valid, name) {
        true
    } else if listed(invalid, name) {
        false
    } else {
        alive
    }
}

/// Says whether `name` is one of the texts of `list`.
pub fn is_listed(list: &Vec<String>, name: &String) -> (found: bool)
    ensures
        found == listed(list@, name@),
{
    let mut i: usize = 0;
    while i < list.len()
        invariant
            i <= list@.len(),
            forall|j: int| 0 <= j < i ==> (#[trigger] list@[j])@ != name@,
        decreases list@.len() - i,
    {
        if list[i] == *name {
            return true;
        }
        i += 1;
    }
    false
}

/// Notes the outcome of a round of checks in the list of servers.
pub fn apply_health(
    upstreams: &mut Vec<(String, bool)>,
    invalidip: &Vec<String>,
    validip: &Vec<String>,
)
    ensures
        final(upstreams)@.len() == old(upstreams)@.len(),
        forall|i: int|
            0 <= i < old(upstreams)@.len() ==> (#[trigger] final(upstreams)@[i]).0@ == old(upstreams)@[i].0@ && final(upstreams)@[i].1 == health_after(
                old(upstreams)@[i].1,
                old(upstreams)@[i].0@,
                invalidip@,
                validip@,
            ),
{
    let mut i: usize = 0;
    while i < upstreams.len()
        invariant
            i <= upstreams@.len(),
            upstreams@.len() == old(upstreams)@.len(),
            forall|k: int|
                0 <= k < i ==> (#[trigger] upstreams@[k]).0@ == old(upstreams)@[k].0@
                    && upstreams@[k].1 == health_after(
                    old(upstreams)@[k].1,
                    old(upstreams)@[k].0@,
                    invalidip@,
                    validip@,
                ),
            forall|k: int| i <= k < upstreams@.len() ==> upstreams@[k] == old(upstreams)@[k],
        decreases upstreams@.len() - i,
    {
        let invalid = is_listed(invalidip, &upstreams[i].0);
        let valid = is_listed(validip, &upstreams[i].0);
        if invalid {
            upstreams[i].1 = false;
        }
        if valid {
            upstreams[i].1 = true;
        }
        i += 1;
    }
}

/// The places of `upstreams` from `from` on whose server is alive or
/// dead, as `alive` asks.
pub open spec fn places(upstreams: Seq<(String, bool)>, alive: bool, from: int) -> Seq<usize>
    decreases upstreams.len() - from,
{
    if from < 0 || from >= upstreams.len() {
        Seq::empty()
    } else if upstreams[from].1 == alive {
        seq![from as usize] + places(upstreams, alive, from + 1)
    } else {
        places(upstreams, alive, from + 1)
    }
}

proof fn lemma_places_step(upstreams: Seq<(String, bool)>, alive: bool, upto: int)
    requires
        0 <= upto < upstreams.len(),
    ensures
        places(upstreams.take(upto + 1), alive, 0) == if upstreams[upto].1 == alive {
            places(upstreams.take(upto), alive, 0).push(upto as usize)
        } else {
            places(upstreams.take(upto), alive, 0)
        },
{
    lemma_places_from(upstreams, alive, upto, 0);
}

proof fn lemma_places_from(upstreams: Seq<(String, bool)>, alive: bool, upto: int, from: int)
    requires
        0 <= from <= upto < upstreams.len(),
    ensures
        places(upstreams.take(upto + 1), alive, from) == if upstreams[upto].1 == alive {
            places(upstreams.take(upto), alive, from).push(upto as usize)
        } else {
            places(upstreams.take(upto), alive, from)
        },
    decreases upto - from,
{
    let longer = upstreams.take(upto + 1);
    let shorter = upstreams.take(upto);
    if from == upto {
        assert(places(shorter, alive, from) =~= Seq::<usize>::empty());
        assert(places(longer, alive, from + 1) =~= Seq::<usize>::empty());
        assert(longer[from] == upstreams[upto]);
        if upstreams[upto].1 == alive {
            assert(places(longer, alive, from) =~= Seq::<usize>::empty().push(upto as usize));
        }
    } else {
        lemma_places_from(upstreams, alive, upto, from + 1);
        assert(longer[from] == shorter[from]);
        if shorter[from].1 == alive {
            let rest = places(shorter, alive, from + 1);
            if upstreams[upto].1 == alive {
                assert(seq![from as usize] + rest.push(upto as usize) =~= (seq![from as usize]
                    + rest).push(upto as usize));
            }
        }
    }
}

/// Lists the places of the servers that are alive, or of those that are
/// dead, in the order of the list.
pub fn places_of(upstreams: &Vec<(String, bool)>, alive: bool) -> (found: Vec<usize>)
    ensures
        found@ == places(upstreams@, alive, 0),
{
    let mut found: Vec<usize> = Vec::new();
    let mut i: usize = 0;
    assert(places(upstreams@.take(0), alive, 0) =~= Seq::<usize>::empty());
    while i < upstreams.len()
        invariant
            i <= upstreams@.len(),
            found@ == places(upstreams@.take(i as int), alive, 0),
        decreases upstreams@.len() - i,
    {
        proof {
            lemma_places_step(upstreams@, alive, i as int);
        }
        if upstreams[i].1 == alive {
            found.push(i);
        }
        i += 1;
    }
    assert(upstreams@.take(upstreams@.len() as int) =~= upstreams@);
    found
}

/// `rand::RngExt::random_range` on the generator of the thread
/// (`rand::rng`), over the range from zero up to and without `n`: the
/// number returned lies in that range. Which number it is depends on
/// chance. The generator is seeded from the operating system when the
/// thread first asks for it.
#[verifier::external_body]
fn random_below(n: usize) -> (picked: usize)
    requires
        n > 0,
    ensures
        picked < n,
{
    rand::RngExt::random_range(&mut rand::rng(), 0..n)
}

/// Where the next connection is to be tried.
#[derive(Clone, Copy, Debug, PartialEq, Eq, Structural)]
pub enum Candidate {
    /// On the server at `upstream`, which counts as alive and stands at
    /// `position` among those not yet tried.
    Live { position: usize, upstream: usize },
    /// On the server at `upstream`, which counts as dead.
    Spare { upstream: usize },
    /// Nowhere: every server was tried.
    Nowhere,
}

/// The search for a server that takes a connection. The servers that
/// count as alive are tried first, in an order left to chance; after
/// them those that count as dead, in the order of the list.
pub struct Dialer {
    ips: Vec<usize>,
    spare: Vec<usize>,
    next_spare: usize,
}

impl Dialer {
    /// The servers that count as alive and were not tried yet.
    pub closed spec fn untried(&self) -> Seq<usize> {
        self.ips@
    }

    /// The servers that count as dead and were not tried yet.
    pub closed spec fn spares(&self) -> Seq<usize> {
        if self.next_spare <= self.spare@.len() {
            self.spare@.skip(self.next_spare as int)
        } else {
            Seq::empty()
        }
    }

    /// A search over the servers of `upstreams`, none tried.
    pub fn new(upstreams: &Vec<(String, bool)>) -> (dialer: Dialer)
        ensures
            dialer.untried() == places(upstreams@, true, 0),
            dialer.spares() == places(upstreams@, false, 0),
    {
        let dialer = Dialer {
            ips: places_of(upstreams, true),
            spare: places_of(upstreams, false),
            next_spare: 0,
        };
        assert(dialer.spare@.skip(0) =~= dialer.spare@);
        dialer
    }

    /// Picks where to try next: one of the untried servers that count
    /// as alive while there is one, else the first untried one that
    /// counts as dead.
    pub fn candidate(&self) -> (next: Candidate)
        ensures
            self.untried().len() > 0 ==> (next matches Candidate::Live { position, upstream }
                && position < self.untried().len() && upstream == self.untried()[position as int]),
            self.untried().len() == 0 && self.spares().len() > 0 ==> next == (Candidate::Spare {
                upstream: self.spares()[0],
            }),
            self.untried().len() == 0 && self.spares().len() == 0 ==> next is Nowhere,
    {
        if self.ips.len() > 0 {
            let position = random_below(self.ips.len());
            Candidate::Live { position, upstream: self.ips[position] }
        } else if self.next_spare < self.spare.len() {
            Candidate::Spare { upstream: self.spare[self.next_spare] }
        } else {
            Candidate::Nowhere
        }
    }

    /// Notes that the connection to `tried` failed: that server is not
    /// tried again. Says whether the server counted as alive until now.
    /// A candidate that names no untried server changes nothing.
    pub fn failed(&mut self, tried: Candidate) -> (was_alive: bool)
        ensures
            was_alive == (tried is Live),
            final(self).untried() == match tried {
                Candidate::Live { position, .. } => if position < old(self).untried().len() {
                    old(self).untried().remove(position as int)
                } else {
                    old(self).untried()
                },
                _ => old(self).untried(),
            },
            final(self).spares() == if tried is Spare && old(self).spares().len() > 0 {
                old(self).spares().drop_first()
            } else {
                old(self).spares()
            },
    {
        match tried {
            Candidate::Live { position, .. } => {
                if position < self.ips.len() {
                    self.ips.remove(position);
                }
                true
            },
            Candidate::Spare { .. } => {
                if self.next_spare < self.spare.len() {
                    assert(self.spare@.skip(self.next_spare as int).drop_first()
                        =~= self.spare@.skip(self.next_spare + 1));
                    self.next_spare = self.next_spare + 1;
                }
                false
            },
            Candidate::Nowhere => false,
        }
    }
}

/// Counts one more request of a client and says whether it is let
/// through. With a limit of zero nothing is counted and every request
/// is let through; else the request is counted, and let through while
/// the count is not above the limit. A count at the top of its range
/// stays there.
pub fn let_through(count: &mut usize, max_requests_per_minute: usize) -> (passed: bool)
    ensures
        max_requests_per_minute == 0 ==> passed && *final(count) == *old(count),
        max_requests_per_minute != 0 ==> *final(count) == (if *old(count) < usize::MAX {
            *old(count) + 1
        } else {
            usize::MAX as int
        }),
        max_requests_per_minute != 0 ==> passed == (*final(count) <= max_requests_per_minute),
{
    if max_requests_per_minute != 0 {
        if *count < usize::MAX {
            *count = *count + 1;
        }
        if *count > max_requests_per_minute {
            return false;
        }
    }
    true
}

/// Why a request could not be read from a client.
#[derive(Clone, Copy, Debug, PartialEq, Eq, Structural)]
pub enum RequestError {
    /// The client stopped sending after this many bytes.
    IncompleteRequest(usize),
    /// The bytes are no request.
    MalformedRequest,
    /// The length of the body is not given as a number.
    InvalidContentLength,
    /// The body is not as long as the request says.
    ContentLengthMismatch,
    /// The body is longer than is taken.
    RequestBodyTooLarge,
    /// The connection failed.
    ConnectionError,
}

/// What to do about a request that could not be read.
#[derive(Clone, Copy, Debug, PartialEq, Eq, Structural)]
pub enum Answer {
    /// Close the connection without a word: the client has gone.
    Hangup,
    /// Send this status and read the next request.
    Reply(u16),
}

/// The answer that an error in reading a request calls for.
pub open spec fn answer_to(error: RequestError) -> Answer {
    match error {
        RequestError::IncompleteRequest(received) => if received == 0 {
            Answer::Hangup
        } else {
            Answer::Reply(BAD_REQUEST)
        },
        RequestError::ConnectionError => Answer::Hangup,
        RequestError::RequestBodyTooLarge => Answer::Reply(PAYLOAD_TOO_LARGE),
        _ => Answer::Reply(BAD_REQUEST),
    }
}

/// Decides what to do about a request that could not be read.
pub fn error_answer(error: RequestError) -> (answer: Answer)
    ensures
        answer == answer_to(error),
{
    match error {
        RequestError::IncompleteRequest(0) => Answer::Hangup,
        RequestError::ConnectionError => Answer::Hangup,
        RequestError::IncompleteRequest(_)
        | RequestError::MalformedRequest
        | RequestError::InvalidContentLength
        | RequestError::ContentLengthMismatch => Answer::Reply(BAD_REQUEST),
        RequestError::RequestBodyTooLarge => Answer::Reply(PAYLOAD_TOO_LARGE),
    }
}

} // verus!
