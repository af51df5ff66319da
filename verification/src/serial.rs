//! 16550 UART on COM1: what goes on the wire.
//!
//! Terminals want CRLF line ends and Rust strings carry bare LF, so
//! every LF goes out preceded by a CR.

use vstd::prelude::*;

verus! {

/// The bytes sent for one byte of text.
pub open spec fn wire_piece(b: u8) -> Seq<u8> {
    if b == 0x0a {
        seq![0x0du8, 0x0au8]
    } else {
        seq![b]
    }
}

/// The bytes sent for a run of text: each LF becomes CR LF.
pub open spec fn wire_bytes(s: Seq<u8>) -> Seq<u8>
    decreases s.len(),
{
    if s.len() == 0 {
        Seq::empty()
    } else {
        wire_bytes(s.drop_last()) + wire_piece(s.last())
    }
}

/// Handle on COM1. There is no state to race on.
pub struct Serial;

impl Serial {
    /// The bytes that go on the wire for `s`.
    pub fn encode(&self, s: &[u8]) -> (out: Vec<u8>)
        ensures
            out@ == wire_bytes(s@),
    {
        let mut out: Vec<u8> = Vec::new();
        let mut i: usize = 0;
        while i < s.len()
            invariant
                i <= s@.len(),
                out@ == wire_bytes(s@.subrange(0, i as int)),
            decreases s@.len() - i,
        {
            let b = s[i];
            // terminals want crlf, rust strings carry bare lf
            if b == 0x0a {
                out.push(0x0d);
            }
            out.push(b);
            proof {
                let p = s@.subrange(0, i as int + 1);
                assert(p.drop_last() =~= s@.subrange(0, i as int));
                assert(p.last() == b);
                assert(out@ =~= wire_bytes(p));
            }
            i = i + 1;
        }
        assert(s@.subrange(0, s@.len() as int) =~= s@);
        out
    }
}

} // verus!

verus! {

/// Text without line feeds goes on the wire unchanged, and each line
/// feed adds exactly one carriage return.
pub proof fn lemma_wire_bytes(s: Seq<u8>)
    ensures
        (forall|i: int| 0 <= i < s.len() ==> s[i] != 0x0a) ==> wire_bytes(s) == s,
        wire_bytes(s).len() == s.len() + count_lf(s),
    decreases s.len(),
{
    if s.len() > 0 {
        lemma_wire_bytes(s.drop_last());
        if forall|i: int| 0 <= i < s.len() ==> s[i] != 0x0a {
            assert forall|i: int| 0 <= i < s.drop_last().len() implies s.drop_last()[i] != 0x0a by {
                assert(s.drop_last()[i] == s[i]);
            }
            assert(s.last() != 0x0a);
            assert(wire_bytes(s) =~= s.drop_last().push(s.last()));
            assert(s.drop_last().push(s.last()) =~= s);
        }
    }
}

/// Number of line feeds in a run of text.
pub open spec fn count_lf(s: Seq<u8>) -> nat
    decreases s.len(),
{
    if s.len() == 0 {
        0
    } else {
        count_lf(s.drop_last()) + if s.last() == 0x0a { 1nat } else { 0nat }
    }
}

/// Text goes on the wire byte by byte in order: a line feed as CR then
/// LF, any other byte as itself.
pub proof fn lemma_wire_push(s: Seq<u8>, b: u8)
    ensures
        b == 0x0a ==> wire_bytes(s.push(b)) == wire_bytes(s) + seq![0x0du8, 0x0au8],
        b != 0x0a ==> wire_bytes(s.push(b)) == wire_bytes(s).push(b),
{
    assert(s.push(b).drop_last() =~= s);
    assert(wire_bytes(s).push(b) =~= wire_bytes(s) + seq![b]);
}

} // verus!
