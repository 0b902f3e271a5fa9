use vstd::prelude::*;

verus! {

/// The 24-bit image made from a 32-bit BGRA-ordered buffer: for every group of four
/// input bytes, three output bytes are written in reverse order, the fourth is dropped.
pub open spec fn rgb24_of(buffer: Seq<u8>) -> Seq<u8> {
    Seq::new(
        (buffer.len() * 3 / 4) as nat,
        |j: int| buffer[4 * (j / 3) + 2 - j % 3],
    )
}

/// Converts packed 32-bit pixels into packed 24-bit pixels with the channel order reversed.
///
/// A buffer whose length leaves a remainder of two when divided by four would be read
/// past its end, so it is not accepted.
pub fn convert_rgb32_to_rgb24(buffer: &[u8]) -> (r: Vec<u8>)
    requires
        buffer@.len() % 4 != 2,
        buffer@.len() * 3 <= usize::MAX,
    ensures
        r@ == rgb24_of(buffer@),
{
    let len: usize = buffer.len();
    let n: usize = len * 3 / 4;
    let mut out: Vec<u8> = Vec::with_capacity(n);
    let mut j: usize = 0;
    while j < n
        invariant
            len == buffer@.len(),
            n == buffer@.len() * 3 / 4,
            buffer@.len() % 4 != 2,
            j <= n,
            out@.len() == j,
            forall|k: int| 0 <= k < j ==> out@[k] == rgb24_of(buffer@)[k],
        decreases n - j,
    {
        proof {
            assert(4 * (j / 3) + 2 - j % 3 < buffer@.len() && 4 * (j / 3) < buffer@.len()) by (nonlinear_arith)
                requires
                    n == buffer@.len() * 3 / 4,
                    buffer@.len() % 4 != 2,
                    j < n,
            ;
        }
        let q: usize = j / 3;
        let r: usize = j % 3;
        assert(4 * q < buffer@.len());
        let base: usize = 4 * q;
        let idx: usize = base + 2 - r;
        out.push(buffer[idx]);
        j = j + 1;
    }
    assert(out@ =~= rgb24_of(buffer@));
    out
}

} // verus!
