//! The streaming reader's core: reassembling logical lines from
//! fixed-size byte chunks.
//!
//! The file is read in chunks; a chunk boundary may fall anywhere inside
//! a line. The assembler keeps the undecoded trailing fragment — the
//! bytes after the last line feed seen so far — and prepends it to the
//! next chunk, so a line split across chunks comes out whole. The carry
//! is bytes, never decoded text, so a boundary inside a multi-byte
//! character cannot corrupt anything. At end of input the final fragment,
//! if any, is still one last logical line without its terminator.

use vstd::prelude::*;
use crate::records::{deep_view, split_on, lemma_split_on_len, LINE_FEED};

verus! {

/// The lines of `s` that are fully terminated by a line feed.
pub open spec fn complete_lines(s: Seq<u8>) -> Seq<Seq<u8>> {
    split_on(s, LINE_FEED).drop_last()
}

/// The trailing fragment of `s`: the bytes after its last line feed.
pub open spec fn rest_fragment(s: Seq<u8>) -> Seq<u8> {
    split_on(s, LINE_FEED).last()
}

/// Reassembles logical lines from byte chunks fed in order.
pub struct LineAssembler {
    carry: Vec<u8>,
    seen: Ghost<Seq<u8>>,
}

impl LineAssembler {
    /// All bytes fed so far.
    pub closed spec fn seen_bytes(self) -> Seq<u8> {
        self.seen@
    }

    /// The carry is exactly the unterminated tail of what was fed.
    pub closed spec fn wf(self) -> bool {
        self.carry@ == rest_fragment(self.seen@)
    }

    /// A fresh assembler that has seen nothing.
    pub fn new() -> (a: LineAssembler)
        ensures
            a.wf(),
            a.seen_bytes() == Seq::<u8>::empty(),
    {
        let a = LineAssembler { carry: Vec::new(), seen: Ghost(Seq::empty()) };
        proof {
            assert(a.carry@ =~= rest_fragment(a.seen@));
        }
        a
    }

    /// Feeds one chunk; returns the lines newly completed by it, in
    /// order. Lines completed by earlier chunks are never repeated.
    pub fn push_chunk(&mut self, chunk: &Vec<u8>) -> (out: Vec<Vec<u8>>)
        requires
            old(self).wf(),
        ensures
            final(self).wf(),
            final(self).seen_bytes() == old(self).seen_bytes() + chunk@,
            complete_lines(final(self).seen_bytes()) == complete_lines(old(self).seen_bytes())
                + deep_view(out@),
    {
        let mut out: Vec<Vec<u8>> = Vec::new();
        let n = chunk.len();
        proof {
            assert(self.seen@ + chunk@.take(0) =~= self.seen@);
        }
        for i in 0..n
            invariant
                n == chunk@.len(),
                self.wf(),
                self.seen_bytes() == old(self).seen_bytes() + chunk@.take(i as int),
                complete_lines(self.seen_bytes()) =~= complete_lines(old(self).seen_bytes())
                    + deep_view(out@),
        {
            let ghost prev = self.seen@;
            let b = chunk[i];
            proof {
                self.seen@ = self.seen@.push(b);
                assert(self.seen@.drop_last() =~= prev);
                assert(self.seen@ =~= old(self).seen_bytes() + chunk@.take(i + 1));
                lemma_split_on_len(prev, LINE_FEED);
            }
            if b == LINE_FEED {
                let mut line: Vec<u8> = Vec::new();
                core::mem::swap(&mut line, &mut self.carry);
                out.push(line);
                proof {
                    assert(split_on(self.seen@, LINE_FEED) =~= split_on(prev, LINE_FEED).push(
                        Seq::<u8>::empty(),
                    ));
                    assert(complete_lines(self.seen@) =~= complete_lines(prev).push(
                        rest_fragment(prev),
                    ));
                    assert(complete_lines(self.seen@) =~= complete_lines(old(self).seen_bytes())
                        + deep_view(out@));
                    assert(self.carry@ =~= rest_fragment(self.seen@));
                }
            } else {
                self.carry.push(b);
                proof {
                    let r = split_on(prev, LINE_FEED);
                    assert(split_on(self.seen@, LINE_FEED) =~= r.update(
                        r.len() - 1,
                        r.last().push(b),
                    ));
                    assert(complete_lines(self.seen@) =~= complete_lines(prev));
                    assert(self.carry@ =~= rest_fragment(self.seen@));
                }
            }
        }
        proof {
            assert(chunk@.take(n as int) =~= chunk@);
        }
        out
    }

    /// Ends the input: hands back the final unterminated fragment, if
    /// any, to be processed as the last logical line.
    pub fn finish(self) -> (tail: Option<Vec<u8>>)
        requires
            self.wf(),
        ensures
            match tail {
                Some(t) => t@ == rest_fragment(self.seen_bytes()) && t@.len() > 0,
                None => rest_fragment(self.seen_bytes()).len() == 0,
            },
    {
        if self.carry.len() > 0 {
            Some(self.carry)
        } else {
            None
        }
    }
}

} // verus!
