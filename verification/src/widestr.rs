//! Wide-string handling for values that arrive from the OS as
//! NUL-terminated UTF-16 buffers.

use vstd::prelude::*;

verus! {

/// The characters that a lossy UTF-16 decode yields for the given units, as
/// `String::from_utf16_lossy` computes them (ill-formed units become
/// replacement characters). The decoding takes pages to state, so the
/// result is only named here.
pub uninterp spec fn utf16_lossy_of(units: Seq<u16>) -> Seq<char>;

/// Relies on String::from_utf16_lossy: its result depends on the units
/// alone.
#[verifier::external_body]
fn utf16_lossy(units: &Vec<u16>) -> (r: String)
    ensures
        r@ == utf16_lossy_of(units@),
{
    String::from_utf16_lossy(units.as_slice())
}

/// The index of the first NUL unit, or the length when there is none.
pub open spec fn nul_pos(ws: Seq<u16>) -> int
    decreases ws.len(),
{
    if ws.len() == 0 {
        0
    } else if ws[0] == 0 {
        0
    } else {
        1 + nul_pos(ws.drop_first())
    }
}

/// The first NUL unit ends the string.
proof fn lemma_nul_pos(ws: Seq<u16>)
    ensures
        0 <= nul_pos(ws) <= ws.len(),
        forall|k: int| 0 <= k < nul_pos(ws) ==> ws[k] != 0,
        nul_pos(ws) < ws.len() ==> ws[nul_pos(ws)] == 0,
    decreases ws.len(),
{
    if ws.len() > 0 && ws[0] != 0 {
        lemma_nul_pos(ws.drop_first());
        assert forall|k: int| 0 <= k < nul_pos(ws) implies ws[k] != 0 by {
            if k > 0 {
                assert(ws.drop_first()[k - 1] == ws[k]);
            }
        }
        if nul_pos(ws) < ws.len() {
            assert(ws[nul_pos(ws)] == ws.drop_first()[nul_pos(ws) - 1]);
        }
    }
}

/// Decode a NUL-terminated UTF-16 buffer: the units before the first NUL,
/// decoded lossily.
#[verifier::loop_isolation(false)]
pub fn widestr_to_string(ws: &[u16]) -> (r: String)
    ensures
        r@ == utf16_lossy_of(ws@.take(nul_pos(ws@))),
{
    proof {
        lemma_nul_pos(ws@);
    }
    let total = ws.len();
    let mut prefix: Vec<u16> = Vec::new();
    let mut i: usize = 0;
    while i < total
        invariant
            0 <= i <= total,
            total == ws@.len(),
            i <= nul_pos(ws@),
            prefix@ == ws@.take(i as int),
        decreases total - i,
    {
        let unit = ws[i];
        if unit == 0 {
            proof {
                assert(nul_pos(ws@) == i) by {
                    if nul_pos(ws@) > i {
                        assert(ws@[i as int] != 0);
                    }
                }
            }
            break;
        }
        proof {
            assert(nul_pos(ws@) > i) by {
                if nul_pos(ws@) == i {
                    assert(ws@[nul_pos(ws@)] == 0 || nul_pos(ws@) == ws@.len());
                }
            }
            assert(prefix@.push(ws@[i as int]) =~= ws@.take(i as int + 1));
        }
        prefix.push(unit);
        i += 1;
    }
    proof {
        assert(prefix@ =~= ws@.take(nul_pos(ws@)));
    }
    utf16_lossy(&prefix)
}

/// Icon extraction is not performed: every executable resolves to no icon
/// path, and the record's icon field stays absent.
pub fn extract_icon_stub(exe: &str) -> (r: Option<String>)
    ensures
        r is None,
{
    None
}

} // verus!
