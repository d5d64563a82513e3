//! The set of authorities: keys whose block signatures are accepted.

use vstd::prelude::*;
use vstd::string::StringExecFns;

use crate::crypto::{b64_of, pk_bytes_ok};
use crate::keys::PublicKey;

verus! {

/// Whether `keys` holds `k`.
pub open spec fn holds_key(keys: Seq<Seq<u8>>, k: Seq<u8>) -> bool {
    exists|i: int| 0 <= i < keys.len() && keys[i] == k
}

/// The newline-separated text form of a run of keys.
pub open spec fn authorities_text(keys: Seq<Seq<u8>>) -> Seq<char>
    decreases keys.len(),
{
    if keys.len() == 0 {
        Seq::empty()
    } else {
        authorities_text(keys.drop_last()) + b64_of(keys.last()) + seq!['\n']
    }
}

/// An unordered set of authority keys, kept as one text file: one
/// base64 key per line, rewritten whole on mutation.
#[derive(Debug)]
pub struct AuthoritiesFile {
    keys: Vec<PublicKey>,
}

impl View for AuthoritiesFile {
    type V = Seq<Seq<u8>>;

    closed spec fn view(&self) -> Seq<Seq<u8>> {
        Seq::new(self.keys@.len(), |i: int| self.keys@[i]@)
    }
}

impl AuthoritiesFile {
    /// No two stored keys are the same.
    pub open spec fn wf(&self) -> bool {
        forall|i: int, j: int| 0 <= i < j < self@.len() ==> self@[i] != self@[j]
    }

    /// An empty set.
    pub fn new() -> (r: AuthoritiesFile)
        ensures
            r@.len() == 0,
            r.wf(),
    {
        let r = AuthoritiesFile { keys: Vec::new() };
        proof {
            assert(r@ =~= Seq::<Seq<u8>>::empty());
        }
        r
    }

    /// Whether `validator` is an authority.
    pub fn is_authority(&self, validator: &PublicKey) -> (r: bool)
        ensures
            r == holds_key(self@, validator@),
    {
        let n = self.keys.len();
        let mut i: usize = 0;
        while i < n
            invariant
                n == self.keys@.len(),
                i <= n,
                self@.len() == n,
                forall|j: int| 0 <= j < n ==> self@[j] == self.keys@[j]@,
                forall|j: int| 0 <= j < i ==> self@[j] != validator@,
            decreases n - i,
        {
            if self.keys[i] == *validator {
                proof {
                    assert(self@[i as int] == validator@);
                }
                return true;
            }
            i = i + 1;
        }
        false
    }

    /// The stored keys.
    pub fn get_authorities(&self) -> (r: Vec<PublicKey>)
        ensures
            r@.len() == self@.len(),
            forall|i: int| 0 <= i < r@.len() ==> r@[i]@ == self@[i],
    {
        let mut out: Vec<PublicKey> = Vec::new();
        let n = self.keys.len();
        let mut i: usize = 0;
        while i < n
            invariant
                n == self.keys@.len(),
                i <= n,
                self@.len() == n,
                forall|j: int| 0 <= j < n ==> self@[j] == self.keys@[j]@,
                out@.len() == i,
                forall|j: int| 0 <= j < i ==> out@[j]@ == self@[j],
            decreases n - i,
        {
            out.push(self.keys[i].clone());
            i = i + 1;
        }
        out
    }

    /// Add an authority: true exactly when it was not there, and then
    /// it is there afterwards; nothing else changes.
    pub fn insert_authority(&mut self, validator: PublicKey) -> (r: bool)
        requires
            old(self).wf(),
        ensures
            r == !holds_key(old(self)@, validator@),
            final(self).wf(),
            forall|b: Seq<u8>|
                holds_key(final(self)@, b) == (holds_key(old(self)@, b) || b == validator@),
    {
        if self.is_authority(&validator) {
            return false;
        }
        let ghost before = self@;
        let ghost vb = validator@;
        self.keys.push(validator);
        proof {
            assert(self@ =~= before.push(vb));
            assert(holds_key(self@, vb)) by {
                assert(self@[before.len() as int] == vb);
            }
            assert forall|b: Seq<u8>|
                holds_key(self@, b) == (holds_key(before, b) || b == vb) by {
                if holds_key(before, b) {
                    let i = choose|i: int| 0 <= i < before.len() && before[i] == b;
                    assert(self@[i] == b);
                }
                if holds_key(self@, b) && b != vb {
                    let i = choose|i: int| 0 <= i < self@.len() && self@[i] == b;
                    assert(before[i] == b);
                }
            }
        }
        true
    }

    /// Remove an authority: true exactly when it was there, and then
    /// it is gone afterwards; nothing else changes.
    pub fn delete_authority(&mut self, validator: &PublicKey) -> (r: bool)
        requires
            old(self).wf(),
        ensures
            r == holds_key(old(self)@, validator@),
            final(self).wf(),
            forall|b: Seq<u8>|
                holds_key(final(self)@, b) == (holds_key(old(self)@, b) && b != validator@),
    {
        let ghost before = self@;
        let ghost vb = validator@;
        let n = self.keys.len();
        let mut i: usize = 0;
        while i < n
            invariant
                n == self.keys@.len(),
                i <= n,
                self@ == before,
                self@.len() == n,
                forall|j: int| 0 <= j < n ==> self@[j] == self.keys@[j]@,
                forall|j: int| 0 <= j < i ==> self@[j] != vb,
                vb == validator@,
                before == old(self)@,
                old(self).wf(),
                self.wf(),
            decreases n - i,
        {
            if self.keys[i] == *validator {
                proof {
                    assert(before[i as int] == vb);
                }
                self.keys.remove(i);
                proof {
                    assert(self@ =~= before.subrange(0, i as int) + before.subrange(
                        i + 1,
                        n as int,
                    ));
                    assert(holds_key(before, vb)) by {
                        assert(before[i as int] == vb);
                    }
                    assert forall|b: Seq<u8>|
                        holds_key(self@, b) == (holds_key(before, b) && b != vb) by {
                        if holds_key(self@, b) {
                            let x = choose|x: int| 0 <= x < self@.len() && self@[x] == b;
                            if x < i {
                                assert(before[x] == b);
                            } else {
                                assert(before[x + 1] == b);
                            }
                            assert(b != vb) by {
                                if x < i {
                                } else {
                                    assert(before[x + 1] != before[i as int]);
                                }
                            }
                        }
                        if holds_key(before, b) && b != vb {
                            let x = choose|x: int| 0 <= x < before.len() && before[x] == b;
                            if x < i {
                                assert(self@[x] == b);
                            } else {
                                assert(x != i);
                                assert(self@[x - 1] == b);
                            }
                        }
                    }
                    assert forall|p: int, q: int|
                        0 <= p < q < self@.len() implies self@[p] != self@[q] by {
                        let bp = if p < i {
                            p
                        } else {
                            p + 1
                        };
                        let bq = if q < i {
                            q
                        } else {
                            q + 1
                        };
                        assert(self@[p] == before[bp]);
                        assert(self@[q] == before[bq]);
                    }
                }
                return true;
            }
            i = i + 1;
        }
        false
    }

    /// The one-key-per-line text that persists this set.
    pub fn to_text(&self) -> (r: String)
        ensures
            r@ == authorities_text(self@),
    {
        let mut out = String::new();
        let n = self.keys.len();
        let mut i: usize = 0;
        while i < n
            invariant
                n == self.keys@.len(),
                i <= n,
                self@.len() == n,
                forall|j: int| 0 <= j < n ==> self@[j] == self.keys@[j]@,
                out@ == authorities_text(self@.take(i as int)),
            decreases n - i,
        {
            let line = self.keys[i].to_base64();
            out.append(line.as_str());
            out.append("\n");
            proof {
                reveal_strlit("\n");
                assert("\n"@ =~= seq!['\n']);
                let taken = self@.take(i + 1);
                assert(taken.drop_last() =~= self@.take(i as int));
                assert(taken.last() == self@[i as int]);
                assert(out@ =~= authorities_text(self@.take(i + 1)));
            }
            i = i + 1;
        }
        proof {
            assert(self@.take(n as int) =~= self@);
        }
        out
    }

    /// The set read back from persisted lines: every line that is the
    /// canonical base64 of a key joins the set once; other lines are
    /// passed over.
    pub fn from_lines(lines: &Vec<String>) -> (r: AuthoritiesFile)
        ensures
            r.wf(),
            forall|b: Seq<u8>| #![trigger holds_key(r@, b)]
                holds_key(r@, b) ==> pk_bytes_ok(b) && (exists|j: int|
                    0 <= j < lines@.len() && lines@[j]@ == b64_of(b)),
            forall|j: int, b: Seq<u8>| #![trigger lines@[j], b64_of(b)]
                (0 <= j < lines@.len() && lines@[j]@ == b64_of(b) && pk_bytes_ok(b)) ==> holds_key(
                    r@,
                    b,
                ),
    {
        let mut out = AuthoritiesFile::new();
        let n = lines.len();
        let mut i: usize = 0;
        while i < n
            invariant
                n == lines@.len(),
                i <= n,
                out.wf(),
                forall|b: Seq<u8>| #![trigger holds_key(out@, b)]
                    holds_key(out@, b) ==> pk_bytes_ok(b) && (exists|j: int|
                        0 <= j < i && lines@[j]@ == b64_of(b)),
                forall|j: int, b: Seq<u8>| #![trigger lines@[j], b64_of(b)]
                    (0 <= j < i && lines@[j]@ == b64_of(b) && pk_bytes_ok(b)) ==> holds_key(
                        out@,
                        b,
                    ),
            decreases n - i,
        {
            let ghost before = out@;
            match PublicKey::from_base64(lines[i].as_str()) {
                Ok(k) => {
                    let ghost kb = k@;
                    let added = out.insert_authority(k);
                    proof {
                        assert(lines@[i as int]@ == b64_of(kb));
                        assert(holds_key(out@, kb));
                        assert forall|b: Seq<u8>| #![trigger holds_key(out@, b)]
                            holds_key(out@, b) implies pk_bytes_ok(b) && (exists|j: int|
                            0 <= j < i + 1 && lines@[j]@ == b64_of(b)) by {
                            if b == kb {
                                assert(0 <= (i as int) && (i as int) < i + 1 && lines@[i as int]@
                                    == b64_of(b));
                            } else {
                                assert(holds_key(before, b));
                            }
                        }
                        assert forall|j: int, b: Seq<u8>| #![trigger lines@[j], b64_of(b)]
                            (0 <= j < i + 1 && lines@[j]@ == b64_of(b) && pk_bytes_ok(b)) implies
                            holds_key(out@, b) by {
                            if 0 <= j < i + 1 && lines@[j]@ == b64_of(b) && pk_bytes_ok(b) {
                                if j == i as int {
                                    assert(b64_of(b) == lines@[i as int]@);
                                    assert(b == kb);
                                } else {
                                    assert(holds_key(before, b));
                                }
                            }
                        }
                    }
                },
                Err(_) => {
                    proof {
                        assert forall|j: int, b: Seq<u8>| #![trigger lines@[j], b64_of(b)]
                            (0 <= j < i + 1 && lines@[j]@ == b64_of(b) && pk_bytes_ok(b)) implies
                            holds_key(out@, b) by {
                            if 0 <= j < i + 1 && lines@[j]@ == b64_of(b) && pk_bytes_ok(b) {
                                assert(j != i as int);
                            }
                        }
                    }
                },
            }
            i = i + 1;
        }
        out
    }
}

} // verus!
