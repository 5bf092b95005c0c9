//! The ledger of outstanding Digest challenges: (nonce, opaque) pairs, oldest first,
//! bounded in number, each good for one answer.
use std::collections::VecDeque;
use vstd::prelude::*;

verus! {

/// Most challenges the ledger keeps; issuing one more forgets the oldest.
pub const NONCE_CAPACITY: usize = 256;

/// A challenge in the model of the ledger: (nonce, opaque).
pub type Token = (Seq<char>, Seq<char>);

/// Whether a stored challenge answers to the presented nonce or opaque value.
pub open spec fn answers(t: Token, nonce: Seq<char>, opaque: Seq<char>) -> bool {
    t.0 == nonce || t.1 == opaque
}

/// The ledger after `t` is issued: the oldest entries leave until fewer than
/// `NONCE_CAPACITY` remain, then `t` joins at the newest end.
pub open spec fn issued(s: Seq<Token>, t: Token) -> Seq<Token> {
    if s.len() >= NONCE_CAPACITY {
        s.skip(s.len() - NONCE_CAPACITY + 1).push(t)
    } else {
        s.push(t)
    }
}

/// Index of the newest entry that answers to `nonce` or `opaque`, or -1.
pub open spec fn last_match(s: Seq<Token>, nonce: Seq<char>, opaque: Seq<char>) -> int
    decreases s.len(),
{
    if s.len() == 0 {
        -1
    } else if answers(s.last(), nonce, opaque) {
        s.len() - 1
    } else {
        last_match(s.drop_last(), nonce, opaque)
    }
}

/// Whether a presented (nonce, opaque) is found, and the ledger afterwards: the newest
/// entry that answers to it is removed.
pub open spec fn consumed(s: Seq<Token>, nonce: Seq<char>, opaque: Seq<char>) -> (bool, Seq<Token>) {
    let i = last_match(s, nonce, opaque);
    if i < 0 {
        (false, s)
    } else {
        (true, s.remove(i))
    }
}

/// `last_match` is the largest index whose entry answers, or -1 when none does.
pub proof fn lemma_last_match(s: Seq<Token>, nonce: Seq<char>, opaque: Seq<char>)
    ensures
        -1 <= last_match(s, nonce, opaque) < s.len(),
        last_match(s, nonce, opaque) >= 0 ==> answers(
            s[last_match(s, nonce, opaque)],
            nonce,
            opaque,
        ),
        forall|j: int|
            last_match(s, nonce, opaque) < j < s.len() ==> !answers(#[trigger] s[j], nonce, opaque),
    decreases s.len(),
{
    if s.len() > 0 && !answers(s.last(), nonce, opaque) {
        lemma_last_match(s.drop_last(), nonce, opaque);
        assert forall|j: int| 0 <= j < s.len() - 1 implies #[trigger] s[j] == s.drop_last()[j] by {}
    }
}

/// The outstanding Digest challenges, oldest first.
pub struct NonceLedger {
    entries: VecDeque<(String, String)>,
}

impl View for NonceLedger {
    type V = Seq<Token>;

    closed spec fn view(&self) -> Seq<Token> {
        self.entries@.map_values(|e: (String, String)| (e.0@, e.1@))
    }
}

impl NonceLedger {
    /// The ledger holds at most `NONCE_CAPACITY` challenges.
    pub open spec fn wf(&self) -> bool {
        self@.len() <= NONCE_CAPACITY
    }

    /// An empty ledger.
    pub fn new() -> (r: NonceLedger)
        ensures
            r@ == Seq::<Token>::empty(),
            r.wf(),
    {
        let r = NonceLedger { entries: VecDeque::new() };
        assert(r@ =~= Seq::<Token>::empty());
        r
    }

    /// Number of outstanding challenges.
    pub fn len(&self) -> (r: usize)
        ensures
            r == self@.len(),
    {
        self.entries.len()
    }

    /// The challenge at position `i`, counted from the oldest.
    pub fn entry(&self, i: usize) -> (r: Option<(&str, &str)>)
        ensures
            i < self@.len() ==> (r matches Some(e) && (e.0@, e.1@) == self@[i as int]),
            i >= self@.len() ==> r is None,
    {
        if i < self.entries.len() {
            let e = &self.entries[i];
            Some((e.0.as_str(), e.1.as_str()))
        } else {
            None
        }
    }

    /// Records a newly issued challenge, forgetting the oldest ones when the ledger is full.
    pub fn issue(&mut self, nonce: String, opaque: String)
        ensures
            final(self)@ == issued(old(self)@, (nonce@, opaque@)),
            old(self).wf() ==> final(self).wf(),
    {
        let ghost start = self@;
        let ghost raw = self.entries@;
        let ghost k: int = 0;
        while self.entries.len() >= NONCE_CAPACITY
            invariant
                0 <= k <= start.len(),
                self@ == start.skip(k),
                self.entries@ == raw.skip(k),
                start == raw.map_values(|e: (String, String)| (e.0@, e.1@)),
                start.len() >= NONCE_CAPACITY ==> k <= start.len() - NONCE_CAPACITY + 1,
                start.len() < NONCE_CAPACITY ==> k == 0,
            decreases self.entries@.len(),
        {
            self.entries.pop_front();
            proof {
                k = k + 1;
                assert(self.entries@ =~= raw.skip(k));
                assert(self@ =~= start.skip(k));
            }
        }
        let ghost mid = self.entries@;
        self.entries.push_back((nonce, opaque));
        proof {
            if start.len() >= NONCE_CAPACITY {
                assert(k == start.len() - NONCE_CAPACITY + 1);
            }
            assert(self@ =~= issued(start, (nonce@, opaque@)));
        }
    }

    /// Looks for the newest challenge with the given nonce or opaque value; when one is
    /// found it is removed, so that it cannot answer again.
    pub fn take_matching(&mut self, nonce: &String, opaque: &String) -> (r: bool)
        ensures
            (r, final(self)@) == consumed(old(self)@, nonce@, opaque@),
            old(self).wf() ==> final(self).wf(),
    {
        let ghost start = self@;
        let mut i = self.entries.len();
        while i > 0
            invariant
                self@ == start,
                start == old(self)@,
                i <= start.len(),
                forall|j: int| i <= j < start.len() ==> !answers(#[trigger] start[j], nonce@, opaque@),
            decreases i,
        {
            let e = &self.entries[i - 1];
            assert(start[i - 1] == (e.0@, e.1@));
            if e.0.eq(nonce) || e.1.eq(opaque) {
                assert(answers(start[i - 1], nonce@, opaque@));
                proof {
                    lemma_last_match(start, nonce@, opaque@);
                }
                assert(last_match(start, nonce@, opaque@) == i - 1) by {
                    let m = last_match(start, nonce@, opaque@);
                    if m > i - 1 {
                        assert(!answers(start[m], nonce@, opaque@));
                    }
                }
                self.entries.remove(i - 1);
                assert(self@ =~= start.remove(i - 1));
                return true;
            }
            i = i - 1;
        }
        proof {
            lemma_last_match(start, nonce@, opaque@);
        }
        assert(last_match(start, nonce@, opaque@) < 0) by {
            let m = last_match(start, nonce@, opaque@);
            if m >= 0 {
                assert(answers(start[m], nonce@, opaque@));
            }
        }
        false
    }
}

/// Issuing a challenge never lets the ledger grow past `NONCE_CAPACITY`; the new
/// challenge becomes the newest entry, and when the ledger was full exactly the
/// oldest entry is forgotten.
pub proof fn lemma_issue_bounded_fifo(s: Seq<Token>, t: Token)
    requires
        s.len() <= NONCE_CAPACITY,
    ensures
        issued(s, t).len() <= NONCE_CAPACITY,
        issued(s, t).last() == t,
        s.len() < NONCE_CAPACITY ==> issued(s, t) == s.push(t),
        s.len() == NONCE_CAPACITY ==> issued(s, t) == s.drop_first().push(t),
{
    if s.len() == NONCE_CAPACITY {
        assert(s.skip(1) =~= s.drop_first());
    }
}

/// Once a challenge has been matched and removed, the same nonce and opaque find
/// nothing more, provided no other entry answered to them; challenges issued in the
/// meantime that answer to neither do not change that.
pub proof fn lemma_consumed_not_reusable(
    s: Seq<Token>,
    nonce: Seq<char>,
    opaque: Seq<char>,
    later: Seq<Token>,
)
    requires
        forall|i: int, j: int|
            0 <= i < s.len() && 0 <= j < s.len() && answers(#[trigger] s[i], nonce, opaque)
                && answers(#[trigger] s[j], nonce, opaque) ==> i == j,
        forall|i: int| 0 <= i < later.len() ==> !answers(#[trigger] later[i], nonce, opaque),
    ensures
        !consumed(consumed(s, nonce, opaque).1 + later, nonce, opaque).0,
{
    let i = last_match(s, nonce, opaque);
    lemma_last_match(s, nonce, opaque);
    let rest = consumed(s, nonce, opaque).1 + later;
    lemma_last_match(rest, nonce, opaque);
    let m = last_match(rest, nonce, opaque);
    if m >= 0 {
        if i >= 0 {
            let removed = s.remove(i);
            if m < removed.len() {
                if m < i {
                    assert(rest[m] == s[m]);
                } else {
                    assert(rest[m] == s[m + 1]);
                }
            } else {
                assert(rest[m] == later[m - removed.len()]);
            }
        } else {
            if m < s.len() {
                assert(rest[m] == s[m]);
            } else {
                assert(rest[m] == later[m - s.len()]);
            }
        }
    }
}

} // verus!
