use vstd::prelude::*;

verus! {

/// Bookkeeping of the byte-source stage: how many bytes the last transport
/// read returned. The blocking read itself is transport work and stays with
/// the caller; this stage only decides what to forward.
#[allow(non_camel_case_types)]
pub struct Data_Reciever {
    data_len: usize,
}

impl Data_Reciever {
    /// How many bytes the last read returned.
    pub closed spec fn last_len(&self) -> usize {
        self.data_len
    }

    /// A fresh byte source that has read nothing yet.
    pub fn new() -> (r: Data_Reciever)
        ensures
            r.last_len() == 0,
    {
        Data_Reciever { data_len: 0 }
    }

    /// The chunk to forward for one transport read that put `n` bytes at the
    /// front of `buffer`: exactly those `n` bytes, in read order; a
    /// zero-length read forwards nothing.
    pub fn accept_read(&mut self, buffer: &Vec<u8>, n: usize) -> (chunk: Option<Vec<u8>>)
        requires
            n <= buffer@.len(),
        ensures
            final(self).last_len() == n,
            (match chunk {
                Some(c) => n > 0 && c@ == buffer@.subrange(0, n as int),
                None => n == 0,
            }),
    {
        self.data_len = n;
        if n > 0 {
            let mut c: Vec<u8> = Vec::new();
            let mut i: usize = 0;
            proof {
                assert(c@ =~= buffer@.subrange(0, 0));
            }
            while i < n
                invariant
                    i <= n,
                    n <= buffer@.len(),
                    c@ == buffer@.subrange(0, i as int),
                decreases n - i,
            {
                c.push(buffer[i]);
                i = i + 1;
                proof {
                    assert(c@ =~= buffer@.subrange(0, i as int));
                }
            }
            Some(c)
        } else {
            None
        }
    }
}

} // verus!
