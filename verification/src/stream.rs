use vstd::prelude::*;

verus! {

/// A byte source: a buffer together with a cursor that only moves forward.
///
/// Decoding never reads past the cursor's buffer, and a failed fixed-size
/// read leaves the cursor where it was.
pub struct ByteReader {
    pub data: Vec<u8>,
    pub pos: usize,
}

impl ByteReader {
    /// The cursor never lies past the end of the buffer.
    pub open spec fn wf(&self) -> bool {
        self.pos <= self.data@.len()
    }

    /// The bytes not yet consumed.
    pub open spec fn avail(&self) -> Seq<u8> {
        self.data@.skip(self.pos as int)
    }

    /// A reader positioned at the start of `data`.
    pub fn new(data: Vec<u8>) -> (r: ByteReader)
        ensures
            r.wf(),
            r.data@ == data@,
            r.pos == 0,
    {
        ByteReader { data, pos: 0 }
    }

    /// Take exactly `n` bytes, advancing the cursor; `None` (and no cursor
    /// movement) if fewer than `n` bytes remain.
    pub fn take_bytes(&mut self, n: usize) -> (r: Option<Vec<u8>>)
        requires
            old(self).wf(),
        ensures
            final(self).wf(),
            final(self).data@ == old(self).data@,
            match r {
                Some(bytes) => {
                    &&& old(self).avail().len() >= n
                    &&& final(self).pos == old(self).pos + n
                    &&& bytes@ == old(self).avail().take(n as int)
                },
                None => {
                    &&& old(self).avail().len() < n
                    &&& final(self).pos == old(self).pos
                },
            },
    {
        if n > self.data.len() - self.pos {
            return None;
        }
        let mut bytes: Vec<u8> = Vec::new();
        let mut i: usize = 0;
        proof {
            assert(bytes@ =~= self.avail().take(0));
        }
        while i < n
            invariant
                self.wf(),
                self.data@ == old(self).data@,
                self.pos == old(self).pos,
                i <= n,
                self.pos + n <= self.data@.len(),
                self.data@.len() <= usize::MAX,
                bytes@ == self.avail().take(i as int),
            decreases n - i,
        {
            bytes.push(self.data[self.pos + i]);
            i += 1;
            proof {
                assert(bytes@ =~= self.avail().take(i as int));
            }
        }
        self.pos = self.pos + n;
        Some(bytes)
    }
}

/// Append every byte of `bytes` to `writer`.
pub fn push_bytes(writer: &mut Vec<u8>, bytes: &Vec<u8>)
    ensures
        final(writer)@ == old(writer)@ + bytes@,
{
    let mut i: usize = 0;
    proof {
        assert(writer@ =~= old(writer)@ + bytes@.take(0));
    }
    while i < bytes.len()
        invariant
            i <= bytes@.len(),
            writer@ == old(writer)@ + bytes@.take(i as int),
        decreases bytes@.len() - i,
    {
        writer.push(bytes[i]);
        i += 1;
        proof {
            assert(writer@ =~= old(writer)@ + bytes@.take(i as int));
        }
    }
    proof {
        assert(old(writer)@ + bytes@.take(bytes@.len() as int) =~= old(writer)@ + bytes@);
    }
}

} // verus!
