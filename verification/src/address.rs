use vstd::prelude::*;

verus! {

/// A derived account identifier. The printed form of an address is the marker
/// `0x` followed by 40 hexadecimal characters; this type stores only the
/// 40-character data portion, as ASCII bytes.
pub struct Address {
    pub data: Vec<u8>,
}

impl Address {
    /// The data portion holds exactly 40 characters.
    pub open spec fn wf(self) -> bool {
        self.data@.len() == 40
    }

    /// Wraps a 40-character data portion.
    pub fn from_data(data: Vec<u8>) -> (r: Address)
        requires
            data@.len() == 40,
        ensures
            r.wf(),
            r.data@ == data@,
    {
        Address { data }
    }

    /// Strips the `0x` marker from a full 42-character printed form.
    pub fn from_printed(bytes: &Vec<u8>) -> (r: Address)
        requires
            bytes@.len() == 42,
        ensures
            r.wf(),
            r.data@ == bytes@.subrange(2, 42),
    {
        let mut data: Vec<u8> = Vec::new();
        let mut i: usize = 2;
        while i < 42
            invariant
                2 <= i <= 42,
                bytes@.len() == 42,
                data@.len() == i - 2,
                forall|j: int| 0 <= j < i - 2 ==> data@[j] == bytes@[j + 2],
            decreases 42 - i,
        {
            data.push(bytes[i]);
            i = i + 1;
        }
        proof {
            assert(data@ =~= bytes@.subrange(2, 42));
        }
        Address { data }
    }
}

} // verus!
