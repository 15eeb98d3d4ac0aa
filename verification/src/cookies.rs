//! The cookie jar of the handshake.
//!
//! A client that was sent the hash of a secret expects the secret itself to
//! arrive by another way. The jar keeps, for each such hash, the place the
//! secret is to be handed to. Expectations that nobody resolves are thrown
//! out once the jar is crowded.

use vstd::prelude::*;
use crate::bytes::{compare_bytes, lex_lt, same_bytes, Order};
use crate::crypto::{sha256, sha256_of};

verus! {

/// The jar is tidied up once it holds more expectations than this.
pub const COOKIE_JAR_LIMIT: usize = 100;

/// When the jar is tidied up, expectations older than this many
/// milliseconds are thrown out.
pub const COOKIE_MAX_AGE_MS: u64 = 20000;

/// One expectation: the hash of the secret, where the secret is to go, and
/// when the expectation was made.
pub struct Expectation<T> {
    pub challenge: [u8; 32],
    pub sender: T,
    pub created: u64,
}

/// The jar. Its expectations are kept in increasing order of hash.
pub struct GlobalSocketState<T> {
    cookies: Vec<Expectation<T>>,
}

/// The expectations are in strictly increasing order of hash.
pub open spec fn jar_sorted<T>(list: Seq<Expectation<T>>) -> bool {
    forall|i: int, j: int|
        0 <= i < j < list.len() ==> lex_lt(
            (#[trigger] list[i]).challenge@,
            (#[trigger] list[j]).challenge@,
        )
}

/// An expectation made at `created` is not stale at `now`.
pub open spec fn is_fresh(created: u64, now: u64) -> bool {
    now < COOKIE_MAX_AGE_MS || created > now - COOKIE_MAX_AGE_MS
}

/// The expectations that are not stale at `now`, in their order.
pub open spec fn retain_fresh<T>(list: Seq<Expectation<T>>, now: u64) -> Seq<Expectation<T>>
    decreases list.len(),
{
    if list.len() == 0 {
        Seq::empty()
    } else if is_fresh(list[0].created, now) {
        seq![list[0]] + retain_fresh(list.drop_first(), now)
    } else {
        retain_fresh(list.drop_first(), now)
    }
}

/// The jar after tidying up at `now`: a jar within the limit is left
/// alone; from a crowded one the stale expectations are thrown out, and if
/// it is crowded still, the one with the smallest hash as well.
pub open spec fn collected<T>(list: Seq<Expectation<T>>, now: u64) -> Seq<Expectation<T>> {
    if list.len() > COOKIE_JAR_LIMIT {
        let kept = retain_fresh(list, now);
        if kept.len() > COOKIE_JAR_LIMIT {
            kept.drop_first()
        } else {
            kept
        }
    } else {
        list
    }
}

/// Where an expectation for `challenge` belongs, counted from `from`:
/// behind the expectations with a smaller hash.
pub open spec fn jar_position<T>(list: Seq<Expectation<T>>, challenge: Seq<u8>, from: int) -> int
    decreases list.len() - from,
{
    if from < 0 || from >= list.len() || !lex_lt(list[from].challenge@, challenge) {
        from
    } else {
        jar_position(list, challenge, from + 1)
    }
}

/// The jar with `e` put in: in place of the expectation for the same hash,
/// or else where its hash belongs.
pub open spec fn put<T>(list: Seq<Expectation<T>>, e: Expectation<T>) -> Seq<Expectation<T>> {
    let p = jar_position(list, e.challenge@, 0);
    if p < list.len() && list[p].challenge == e.challenge {
        list.update(p, e)
    } else {
        list.insert(p, e)
    }
}

/// Where `jar_position` ends up.
pub proof fn lemma_jar_position<T>(list: Seq<Expectation<T>>, challenge: Seq<u8>, from: int)
    requires
        0 <= from <= list.len(),
    ensures
        from <= jar_position(list, challenge, from) <= list.len(),
        forall|k: int|
            from <= k < jar_position(list, challenge, from) ==> lex_lt(
                (#[trigger] list[k]).challenge@,
                challenge,
            ),
        jar_position(list, challenge, from) < list.len() ==> !lex_lt(
            list[jar_position(list, challenge, from)].challenge@,
            challenge,
        ),
    decreases list.len() - from,
{
    if from < list.len() && lex_lt(list[from].challenge@, challenge) {
        lemma_jar_position(list, challenge, from + 1);
    }
}

/// Throwing out stale expectations keeps the order, and keeps nothing that
/// was not there.
pub proof fn lemma_retain_fresh<T>(list: Seq<Expectation<T>>, now: u64)
    requires
        jar_sorted(list),
    ensures
        jar_sorted(retain_fresh(list, now)),
        retain_fresh(list, now).len() <= list.len(),
        forall|k: int|
            0 <= k < retain_fresh(list, now).len() ==> list.contains(
                #[trigger] retain_fresh(list, now)[k],
            ) && is_fresh(retain_fresh(list, now)[k].created, now),
        forall|k: int|
            0 <= k < list.len() && is_fresh((#[trigger] list[k]).created, now) ==> retain_fresh(
                list,
                now,
            ).contains(list[k]),
    decreases list.len(),
{
    if list.len() > 0 {
        let rest = list.drop_first();
        lemma_retain_fresh(rest, now);
        let kept_rest = retain_fresh(rest, now);
        let kept = retain_fresh(list, now);
        if is_fresh(list[0].created, now) {
            assert forall|k: int|
                0 <= k < list.len() && is_fresh(
                    (#[trigger] list[k]).created,
                    now,
                ) implies kept.contains(list[k]) by {
                if k == 0 {
                    assert(kept[0] == list[0]);
                } else {
                    let i = choose|i: int| 0 <= i < kept_rest.len() && kept_rest[i] == rest[k - 1];
                    assert(kept[i + 1] == list[k]);
                }
            }
        } else {
            assert forall|k: int|
                0 <= k < list.len() && is_fresh(
                    (#[trigger] list[k]).created,
                    now,
                ) implies kept.contains(list[k]) by {
                assert(rest[k - 1] == list[k]);
            }
        }
    }
}

/// Tidying up keeps the order.
pub proof fn lemma_collected_sorted<T>(list: Seq<Expectation<T>>, now: u64)
    requires
        jar_sorted(list),
    ensures
        jar_sorted(collected(list, now)),
        collected(list, now).len() <= list.len(),
{
    lemma_retain_fresh(list, now);
}

/// Putting an expectation in keeps the order.
pub proof fn lemma_put_sorted<T>(list: Seq<Expectation<T>>, e: Expectation<T>)
    requires
        jar_sorted(list),
    ensures
        jar_sorted(put(list, e)),
{
    let p = jar_position(list, e.challenge@, 0);
    lemma_jar_position(list, e.challenge@, 0);
    if p < list.len() && list[p].challenge == e.challenge {
    } else {
        assert forall|b: int| p <= b < list.len() implies lex_lt(
            e.challenge@,
            (#[trigger] list[b]).challenge@,
        ) by {
            lemma_first_not_below(list[p].challenge, e.challenge);
            if b > p {
                crate::bytes::lemma_lex_lt_transitive(
                    e.challenge@,
                    list[p].challenge@,
                    list[b].challenge@,
                );
            }
        }
    }
}

/// Of two different hashes, one is below the other.
proof fn lemma_first_not_below(a: [u8; 32], b: [u8; 32])
    requires
        !lex_lt(a@, b@),
        a != b,
    ensures
        lex_lt(b@, a@),
{
    lemma_total(a@, b@, 0);
    if a@ == b@ {
        assert(a =~= b);
    }
}

/// Two byte strings of 32 bytes that agree before `from` differ somewhere
/// from there on, or are the same.
proof fn lemma_total(a: Seq<u8>, b: Seq<u8>, from: int)
    requires
        a.len() == 32,
        b.len() == 32,
        0 <= from <= 32,
        forall|j: int| 0 <= j < from ==> a[j] == b[j],
    ensures
        lex_lt(a, b) || lex_lt(b, a) || a == b,
    decreases 32 - from,
{
    if from == 32 {
    } else if a[from] < b[from] {
        assert(crate::bytes::differ_first_at(a, b, from));
    } else if a[from] > b[from] {
        assert(crate::bytes::differ_first_at(b, a, from));
    } else {
        lemma_total(a, b, from + 1);
    }
}

impl<T> GlobalSocketState<T> {
    /// The expectations, in increasing order of hash.
    pub closed spec fn entries(&self) -> Seq<Expectation<T>> {
        self.cookies@
    }

    /// The expectations are in order, so there is at most one per hash.
    pub open spec fn wf(&self) -> bool {
        jar_sorted(self.entries())
    }

    /// An empty jar.
    pub fn new() -> (jar: Self)
        ensures
            jar.wf(),
            jar.entries().len() == 0,
    {
        GlobalSocketState { cookies: Vec::new() }
    }

    /// How many expectations the jar holds.
    pub fn len(&self) -> (n: usize)
        ensures
            n == self.entries().len(),
    {
        self.cookies.len()
    }

    /// Throws out the expectations that are stale at `now`.
    fn drop_stale(&mut self, now: u64)
        ensures
            final(self).entries() == retain_fresh(old(self).entries(), now),
    {
        let mut kept: Vec<Expectation<T>> = Vec::new();
        while self.cookies.len() > 0
            invariant
                kept@ + retain_fresh(self.cookies@, now) == retain_fresh(old(self).cookies@, now),
            decreases self.cookies@.len(),
        {
            let e = self.cookies.remove(0);
            if now < COOKIE_MAX_AGE_MS || e.created > now - COOKIE_MAX_AGE_MS {
                kept.push(e);
            }
        }
        self.cookies = kept;
    }

    /// Registers that the secret with the hash `challenge` is expected, to
    /// be handed to `sender`. A crowded jar is tidied up first; an
    /// expectation for the same hash is replaced.
    pub fn expect_a_cookie(&mut self, challenge: [u8; 32], sender: T, now: u64)
        requires
            old(self).wf(),
        ensures
            final(self).wf(),
            final(self).entries() == put(
                collected(old(self).entries(), now),
                Expectation { challenge: challenge, sender: sender, created: now },
            ),
    {
        if self.cookies.len() > COOKIE_JAR_LIMIT {
            self.drop_stale(now);
            if self.cookies.len() > COOKIE_JAR_LIMIT {
                let _ = self.cookies.remove(0);
            }
        }
        proof {
            lemma_collected_sorted(old(self).entries(), now);
        }
        let ghost tidy = self.cookies@;
        let n = self.cookies.len();
        let mut p: usize = 0;
        let mut found = false;
        while p < n
            invariant_except_break
                !found,
            invariant
                0 <= p <= n,
                n == self.cookies@.len(),
                self.cookies@ == tidy,
                jar_position(tidy, challenge@, 0) == jar_position(tidy, challenge@, p as int),
            ensures
                0 <= p <= n,
                self.cookies@ == tidy,
                p == jar_position(tidy, challenge@, 0),
                found == (p < n && tidy[p as int].challenge == challenge),
            decreases n - p,
        {
            match compare_bytes(&self.cookies[p].challenge, &challenge) {
                Order::Less => {},
                Order::Equal => {
                    found = true;
                    proof {
                        crate::bytes::lemma_lex_lt_irreflexive(challenge@);
                    }
                    break ;
                },
                Order::Greater => {
                    proof {
                        crate::bytes::lemma_lex_lt_asymmetric(challenge@, tidy[p as int].challenge@);
                        crate::bytes::lemma_lex_lt_irreflexive(challenge@);
                    }
                    break ;
                },
            }
            p += 1;
        }
        let entry = Expectation { challenge, sender, created: now };
        proof {
            lemma_put_sorted(tidy, entry);
        }
        if found {
            self.cookies[p] = entry;
        } else {
            self.cookies.insert(p, entry);
        }
    }

    /// Resolves the expectation for the secret `cookie`: the expectation
    /// for its hash leaves the jar, and the place the secret is to go to
    /// is handed out. Without such an expectation nothing changes.
    pub fn add_a_cookie(&mut self, cookie: [u8; 32]) -> (r: Option<T>)
        requires
            old(self).wf(),
        ensures
            final(self).wf(),
            match r {
                Some(sender) => exists|p: int|
                    {
                        &&& 0 <= p < old(self).entries().len()
                        &&& (#[trigger] old(self).entries()[p]).challenge@ == sha256_of(cookie@)
                        &&& sender == old(self).entries()[p].sender
                        &&& final(self).entries() == old(self).entries().remove(p)
                    },
                None => {
                    &&& final(self).entries() == old(self).entries()
                    &&& forall|p: int|
                        0 <= p < old(self).entries().len() ==> (
                        #[trigger] old(self).entries()[p]).challenge@ != sha256_of(cookie@)
                },
            },
    {
        let k = sha256(cookie.as_slice());
        let n = self.cookies.len();
        let mut p: usize = 0;
        while p < n
            invariant
                0 <= p <= n,
                n == self.cookies@.len(),
                self.cookies@ == old(self).cookies@,
                jar_sorted(old(self).cookies@),
                k@ == sha256_of(cookie@),
                forall|j: int| 0 <= j < p ==> (#[trigger] self.cookies@[j]).challenge@ != k@,
            decreases n - p,
        {
            if same_bytes(&self.cookies[p].challenge, &k) {
                let e = self.cookies.remove(p);
                proof {
                    let before = old(self).entries();
                    let after = self.entries();
                    assert(after == before.remove(p as int));
                    assert forall|i: int, j: int| 0 <= i < j < after.len() implies lex_lt(
                        (#[trigger] after[i]).challenge@,
                        (#[trigger] after[j]).challenge@,
                    ) by {
                        let oi = if i < p {
                            i
                        } else {
                            i + 1
                        };
                        let oj = if j < p {
                            j
                        } else {
                            j + 1
                        };
                        assert(after[i] == before[oi] && after[j] == before[oj]);
                    }
                }
                return Some(e.sender);
            }
            p += 1;
        }
        None
    }
}

} // verus!
