use vstd::prelude::*;

verus! {

/// libc's `ICANON`, the local-mode flag of line-at-a-time input. Its value
/// differs between targets; the contract claims that it is one of the two
/// values that libc gives it on its targets, 2 (most Linux ones) or 0x100.
#[verifier::external_body]
fn icanon_flag() -> (r: u32)
    ensures
        r == 2 || r == 0x100,
{
    libc::ICANON
}

/// libc's `ECHO`, the local-mode flag that echoes typed input. Its value
/// differs between targets; the contract claims that it is one of the values
/// that libc gives it on its targets, 8 (Linux), 0x10 or 4.
#[verifier::external_body]
fn echo_flag() -> (r: u32)
    ensures
        r == 4 || r == 8 || r == 0x10,
{
    libc::ECHO
}

/// `m` is the line-at-a-time flag (2 or 0x100) together with the echo flag
/// (4, 8 or 0x10), and no other flag.
pub open spec fn is_row_cache_mask(m: u32) -> bool {
    let canon = m & 0x102u32;
    let echo = m & 0x1Cu32;
    &&& (canon == 2 || canon == 0x100)
    &&& (echo == 4 || echo == 8 || echo == 0x10)
    &&& m == canon | echo
}

/// The local-mode flags of line-buffered input: libc's `ICANON` and `ECHO`
/// together.
pub fn row_cache_mask() -> (m: u32)
    ensures
        m != 0,
        is_row_cache_mask(m),
{
    let a = icanon_flag();
    let b = echo_flag();
    let m = a | b;
    assert(m != 0 && is_row_cache_mask(m)) by (bit_vector)
        requires
            a == 2 || a == 0x100,
            b == 4 || b == 8 || b == 0x10,
            m == a | b,
    ;
    m
}

/// The local-mode flags `lflag` with the flags of `mask` switched on when
/// `enable`, and off otherwise; every other flag stays as it was.
pub open spec fn row_cache_flags_spec(lflag: u32, mask: u32, enable: bool) -> u32 {
    if enable {
        lflag | mask
    } else {
        lflag & !mask
    }
}

/// Switches line-buffered input on or off in the local-mode flags `lflag`.
pub fn set_row_cache_flags(lflag: u32, mask: u32, enable: bool) -> (r: u32)
    ensures
        r == row_cache_flags_spec(lflag, mask, enable),
{
    if !enable {
        lflag & !mask
    } else {
        lflag | mask
    }
}

/// Switching on sets every flag of the mask, switching off clears them all,
/// and neither touches a flag outside the mask.
pub proof fn lemma_row_cache_flags(lflag: u32, mask: u32, enable: bool)
    ensures
        enable ==> row_cache_flags_spec(lflag, mask, enable) & mask == mask,
        !enable ==> row_cache_flags_spec(lflag, mask, enable) & mask == 0,
        row_cache_flags_spec(lflag, mask, enable) & !mask == lflag & !mask,
{
    let on = lflag | mask;
    let off = lflag & !mask;
    assert(on & mask == mask && on & !mask == lflag & !mask) by (bit_vector)
        requires
            on == lflag | mask,
    ;
    assert(off & mask == 0 && off & !mask == lflag & !mask) by (bit_vector)
        requires
            off == lflag & !mask,
    ;
}

/// Switching line-buffered input off and then on again gives back the flags
/// of a terminal that had it on; switching twice the same way is the same as
/// once.
pub proof fn lemma_row_cache_round_trip(lflag: u32, mask: u32, enable: bool)
    ensures
        lflag & mask == mask ==> row_cache_flags_spec(
            row_cache_flags_spec(lflag, mask, false),
            mask,
            true,
        ) == lflag,
        row_cache_flags_spec(row_cache_flags_spec(lflag, mask, enable), mask, enable)
            == row_cache_flags_spec(lflag, mask, enable),
{
    let off = lflag & !mask;
    let back = off | mask;
    assert(lflag & mask == mask ==> back == lflag) by (bit_vector)
        requires
            off == lflag & !mask,
            back == off | mask,
    ;
    let on = lflag | mask;
    assert((on | mask) == on && (off & !mask) == off) by (bit_vector)
        requires
            on == lflag | mask,
            off == lflag & !mask,
    ;
}

} // verus!
