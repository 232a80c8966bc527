//! Runtime registries: a name-to-code table for record types, and the
//! registry of which record kinds a decoder exists for.

use vstd::prelude::*;

use crate::codes::Types;
use crate::names::bytes_eq;

verus! {

/// The first value registered under a key, searching newest first.
pub open spec fn spec_find_key(s: Seq<(Seq<u8>, u16)>, key: Seq<u8>) -> Option<u16>
    decreases s.len(),
{
    if s.len() == 0 {
        None
    } else if s[0].0 == key {
        Some(s[0].1)
    } else {
        spec_find_key(s.drop_first(), key)
    }
}

/// The first key registered under a code, searching newest first.
pub open spec fn spec_find_code(s: Seq<(Seq<u8>, u16)>, code: u16) -> Option<Seq<u8>>
    decreases s.len(),
{
    if s.len() == 0 {
        None
    } else if s[0].1 == code {
        Some(s[0].0)
    } else {
        spec_find_code(s.drop_first(), code)
    }
}

/// A two-way table between textual type mnemonics and numeric codes.
/// Later registrations shadow earlier ones.
pub struct TypeHandler {
    pairs: Vec<(Vec<u8>, u16)>,
}

impl TypeHandler {
    /// The registered pairs, newest first.
    pub closed spec fn view(&self) -> Seq<(Seq<u8>, u16)> {
        Seq::new(self.pairs@.len(), |i: int| (self.pairs@[i].0@, self.pairs@[i].1))
    }

    pub fn new() -> (r: TypeHandler)
        ensures
            r@ == Seq::<(Seq<u8>, u16)>::empty(),
    {
        let r = TypeHandler { pairs: Vec::new() };
        proof {
            assert(r@ =~= Seq::<(Seq<u8>, u16)>::empty());
        }
        r
    }

    /// Registers a mnemonic for a code; the newest registration wins both
    /// lookups.
    pub fn register_type(&mut self, key: &[u8], code: u16)
        ensures
            final(self)@ == seq![(key@, code)] + old(self)@,
    {
        self.pairs.insert(0, (vstd::slice::slice_to_vec(key), code));
        proof {
            assert(self@ =~= seq![(key@, code)] + old(self)@);
        }
    }

    /// The code registered under a mnemonic.
    pub fn find_type_by_key(&self, key: &[u8]) -> (r: Option<u16>)
        ensures
            r == spec_find_key(self@, key@),
    {
        let n = self.pairs.len();
        let mut i: usize = 0;
        proof {
            assert(self@.skip(0) =~~= self@);
        }
        while i < n
            invariant
                n == self.pairs@.len(),
                0 <= i <= n,
                spec_find_key(self@, key@) == spec_find_key(self@.skip(i as int), key@),
            decreases n - i,
        {
            proof {
                assert(self@.skip(i as int)[0] == self@[i as int]);
                assert(self@.skip(i as int).drop_first() =~~= self@.skip(i as int + 1));
            }
            if bytes_eq(self.pairs[i].0.as_slice(), key) {
                return Some(self.pairs[i].1);
            }
            i += 1;
        }
        proof {
            assert(self@.skip(n as int).len() == 0);
        }
        None
    }

    /// The mnemonic registered under a code.
    pub fn find_type_by_code(&self, code: u16) -> (r: Option<Vec<u8>>)
        ensures
            match (r, spec_find_code(self@, code)) {
                (Some(v), Some(sp)) => v@ == sp,
                (None, None) => true,
                _ => false,
            },
    {
        let n = self.pairs.len();
        let mut i: usize = 0;
        proof {
            assert(self@.skip(0) =~~= self@);
        }
        while i < n
            invariant
                n == self.pairs@.len(),
                0 <= i <= n,
                spec_find_code(self@, code) == spec_find_code(self@.skip(i as int), code),
            decreases n - i,
        {
            proof {
                assert(self@.skip(i as int)[0] == self@[i as int]);
                assert(self@.skip(i as int).drop_first() =~~= self@.skip(i as int + 1));
            }
            if self.pairs[i].1 == code {
                return Some(vstd::slice::slice_to_vec(self.pairs[i].0.as_slice()));
            }
            i += 1;
        }
        proof {
            assert(self@.skip(n as int).len() == 0);
        }
        None
    }
}

/// The first registered kind whose wire code matches.
pub open spec fn spec_find_record(s: Seq<Types>, code: u16) -> Option<Types>
    decreases s.len(),
{
    if s.len() == 0 {
        None
    } else if s[0].spec_code() == code {
        Some(s[0])
    } else {
        spec_find_record(s.drop_first(), code)
    }
}

/// The registry of record kinds a decoder exists for, looked up by wire
/// type code when a record is dispatched.
pub struct RecordHandler {
    kinds: Vec<Types>,
}

impl RecordHandler {
    /// The registered kinds in registration order.
    pub closed spec fn view(&self) -> Seq<Types> {
        self.kinds@
    }

    pub fn new() -> (r: RecordHandler)
        ensures
            r@ == Seq::<Types>::empty(),
    {
        RecordHandler { kinds: Vec::new() }
    }

    /// Registers a record kind under its own wire code.
    pub fn register_record(&mut self, kind: Types)
        ensures
            final(self)@ == old(self)@.push(kind),
    {
        self.kinds.push(kind);
    }

    /// The registered kind for a wire code, if any.
    pub fn find_record(&self, code: u16) -> (r: Option<Types>)
        ensures
            r == spec_find_record(self@, code),
            r is Some ==> r->0.spec_code() == code,
    {
        let n = self.kinds.len();
        let mut i: usize = 0;
        proof {
            assert(self@.skip(0) =~~= self@);
        }
        while i < n
            invariant
                n == self@.len(),
                0 <= i <= n,
                spec_find_record(self@, code) == spec_find_record(self@.skip(i as int), code),
            decreases n - i,
        {
            proof {
                assert(self@.skip(i as int)[0] == self@[i as int]);
                assert(self@.skip(i as int).drop_first() =~~= self@.skip(i as int + 1));
            }
            if self.kinds[i].get_code() == code {
                return Some(self.kinds[i]);
            }
            i += 1;
        }
        proof {
            assert(self@.skip(n as int).len() == 0);
        }
        None
    }
}

} // verus!
