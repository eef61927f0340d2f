//! Permission-set decoder: turns a permission token such as `rw-p` into a
//! named boolean set. Unrecognized characters are ignored, so the decoder
//! always succeeds.

use vstd::prelude::*;

verus! {

#[derive(Clone, Copy, Debug, Default, PartialEq)]
pub struct Permissions {
    pub read: bool,
    pub write: bool,
    pub execute: bool,
    pub shared: bool,
    pub private: bool,
}

/// The set decoded from a permission token: each flag is present exactly
/// when its character occurs somewhere in the token, in any order.
pub open spec fn perms_model(s: Seq<char>) -> Permissions {
    Permissions {
        read: s.contains('r'),
        write: s.contains('w'),
        execute: s.contains('x'),
        shared: s.contains('s'),
        private: s.contains('p'),
    }
}

impl Permissions {
    pub fn read(&mut self, v: bool)
        ensures
            *final(self) == (Permissions { read: v, ..*old(self) }),
    {
        self.read = v;
    }

    pub fn write(&mut self, v: bool)
        ensures
            *final(self) == (Permissions { write: v, ..*old(self) }),
    {
        self.write = v;
    }

    pub fn execute(&mut self, v: bool)
        ensures
            *final(self) == (Permissions { execute: v, ..*old(self) }),
    {
        self.execute = v;
    }

    pub fn shared(&mut self, v: bool)
        ensures
            *final(self) == (Permissions { shared: v, ..*old(self) }),
    {
        self.shared = v;
    }

    pub fn private(&mut self, v: bool)
        ensures
            *final(self) == (Permissions { private: v, ..*old(self) }),
    {
        self.private = v;
    }

    /// Decodes a permission token. Characters outside `{r,w,x,s,p}` are
    /// ignored, so any input is accepted.
    pub fn from_str(s: &str) -> (r: Permissions)
        ensures
            r == perms_model(s@),
    {
        let n = s.unicode_len();
        let mut r = Permissions { read: false, write: false, execute: false, shared: false, private: false };
        let mut i: usize = 0;
        while i < n
            invariant
                n == s@.len(),
                i <= n,
                r.read == s@.take(i as int).contains('r'),
                r.write == s@.take(i as int).contains('w'),
                r.execute == s@.take(i as int).contains('x'),
                r.shared == s@.take(i as int).contains('s'),
                r.private == s@.take(i as int).contains('p'),
            decreases n - i,
        {
            let c = s.get_char(i);
            match c {
                'r' => { r.read = true; },
                'w' => { r.write = true; },
                'x' => { r.execute = true; },
                's' => { r.shared = true; },
                'p' => { r.private = true; },
                _ => {},
            }
            proof {
                let t0 = s@.take(i as int);
                let t1 = s@.take(i + 1);
                assert(t1.drop_last() =~= t0);
                assert(t1.last() == s@[i as int]);
                assert(forall|c0: char| #[trigger] t1.contains(c0) <==> (t0.contains(c0) || s@[i as int] == c0)) by {
                    assert(forall|c0: char| t0.contains(c0) ==> #[trigger] t1.contains(c0)) by {
                        assert(forall|j: int| 0 <= j < t0.len() ==> t1[j] == t0[j]);
                    }
                    assert(forall|c0: char| #[trigger] t1.contains(c0) && s@[i as int] != c0 ==> t0.contains(c0)) by {
                        assert(forall|j: int| 0 <= j < t1.len() - 1 ==> t1[j] == t0[j]);
                    }
                    assert(t1.contains(t1.last()));
                }
            }
            i = i + 1;
        }
        proof {
            assert(s@.take(n as int) =~= s@);
        }
        r
    }
}

/// Decoding a permission token does not depend on the order of its
/// characters: two tokens holding the same characters decode to the same
/// permission set.
pub proof fn law_perms_order_irrelevant(s1: Seq<char>, s2: Seq<char>)
    requires
        s1.to_multiset() == s2.to_multiset(),
    ensures
        perms_model(s1) == perms_model(s2),
{
    assert forall|c: char| s1.contains(c) == s2.contains(c) by {
        vstd::seq_lib::to_multiset_contains(s1, c);
        vstd::seq_lib::to_multiset_contains(s2, c);
    }
    assert(s1.contains('r') == s2.contains('r'));
    assert(s1.contains('w') == s2.contains('w'));
    assert(s1.contains('x') == s2.contains('x'));
    assert(s1.contains('s') == s2.contains('s'));
    assert(s1.contains('p') == s2.contains('p'));
}

} // verus!
