//! The guest's C-style log formatting: a template with `%[width]u`,
//! `%[width]x` and `%[width]d` conversions, applied to a list of words.
//! Everything works on UTF-8 bytes; the digits and padding are ASCII.

use vstd::prelude::*;
use crate::errors::ExecError;

verus! {

/// The decimal digits of a non-negative number, highest first.
pub open spec fn dec_bytes_spec(n: int) -> Seq<u8>
    decreases n,
    when n >= 0
{
    if n < 10 {
        seq![(0x30 + n) as u8]
    } else {
        dec_bytes_spec(n / 10) + seq![(0x30 + n % 10) as u8]
    }
}

/// One lowercase hexadecimal digit.
pub open spec fn hex_digit(d: int) -> u8 {
    if d < 10 {
        (0x30 + d) as u8
    } else {
        (0x61 + d - 10) as u8
    }
}

/// The lowercase hexadecimal digits of a non-negative number, highest first.
pub open spec fn hex_bytes_spec(n: int) -> Seq<u8>
    decreases n,
    when n >= 0
{
    if n < 16 {
        seq![hex_digit(n)]
    } else {
        hex_bytes_spec(n / 16) + seq![hex_digit(n % 16)]
    }
}

/// Left-pad with a fill byte up to the field width.
pub open spec fn padded(s: Seq<u8>, width: int, fill: u8) -> Seq<u8> {
    if s.len() >= width {
        s
    } else {
        Seq::new((width - s.len()) as nat, |k: int| fill) + s
    }
}

/// The rendering of one word under a conversion: space-padded decimal for
/// `u`, zero-padded hexadecimal for `x`, and space-padded signed decimal
/// for `d` (the word reinterpreted as a two's-complement 32-bit value).
pub open spec fn render(spec_byte: u8, width: int, arg: u32) -> Option<Seq<u8>> {
    if spec_byte == 0x75 {
        Some(padded(dec_bytes_spec(arg as int), width, 0x20))
    } else if spec_byte == 0x78 {
        Some(padded(hex_bytes_spec(arg as int), width, 0x30))
    } else if spec_byte == 0x64 {
        if arg >= 0x8000_0000 {
            Some(padded(seq![0x2du8] + dec_bytes_spec(0x1_0000_0000 - arg as int), width, 0x20))
        } else {
            Some(padded(dec_bytes_spec(arg as int), width, 0x20))
        }
    } else {
        None
    }
}

/// How many ASCII digits follow position `from`.
pub open spec fn digit_run(t: Seq<u8>, from: int) -> nat
    decreases t.len() - from,
    when 0 <= from <= t.len()
{
    if from < t.len() && 0x30 <= t[from] <= 0x39 {
        (1 + digit_run(t, from + 1)) as nat
    } else {
        0
    }
}

/// The value of `cnt` digits at `from`, or `None` when it exceeds the
/// machine's word range, as a failed width parse does.
pub open spec fn parse_width(t: Seq<u8>, from: int, cnt: int) -> Option<int>
    decreases cnt,
{
    if cnt <= 0 {
        Some(0int)
    } else {
        match parse_width(t, from, cnt - 1) {
            None => None,
            Some(w) => {
                let v = w * 10 + (t[from + cnt - 1] - 0x30);
                if v > usize::MAX {
                    None
                } else {
                    Some(v)
                }
            },
        }
    }
}

/// A failed width parse falls back to width zero.
pub open spec fn width_of(t: Seq<u8>, from: int, cnt: int) -> int {
    match parse_width(t, from, cnt) {
        None => 0int,
        Some(w) => w,
    }
}

/// The formatted bytes, or `None` on an unknown conversion or an argument
/// count mismatch.
pub open spec fn fmt_spec(t: Seq<u8>, args: Seq<u32>) -> Option<Seq<u8>>
    decreases t.len(),
{
    if t.len() == 0 {
        if args.len() == 0 {
            Some(Seq::empty())
        } else {
            None
        }
    } else if t[0] != 0x25 {
        match fmt_spec(t.subrange(1, t.len() as int), args) {
            None => None,
            Some(r) => Some(seq![t[0]] + r),
        }
    } else {
        let dl = digit_run(t, 1) as int;
        if 1 + dl >= t.len() || args.len() == 0 {
            None
        } else {
            let width = width_of(t, 1, dl);
            match render(t[1 + dl], width, args[0]) {
                None => None,
                Some(body) => match fmt_spec(
                    t.subrange(2 + dl, t.len() as int),
                    args.subrange(1, args.len() as int),
                ) {
                    None => None,
                    Some(r) => Some(body + r),
                },
            }
        }
    }
}

/// The decimal digits of a word.
fn dec_bytes(n: u32) -> (r: Vec<u8>)
    ensures
        r@ == dec_bytes_spec(n as int),
    decreases n,
{
    if n < 10 {
        let r: Vec<u8> = vec![0x30 + n as u8];
        proof {
            assert(r@ =~= dec_bytes_spec(n as int));
        }
        r
    } else {
        let mut r = dec_bytes(n / 10);
        let ghost r0 = r@;
        r.push(0x30 + (n % 10) as u8);
        proof {
            assert(r@ =~= r0 + seq![(0x30 + n as int % 10) as u8]);
        }
        r
    }
}

/// The lowercase hexadecimal digits of a word.
fn hex_bytes(n: u32) -> (r: Vec<u8>)
    ensures
        r@ == hex_bytes_spec(n as int),
    decreases n,
{
    if n < 16 {
        let d: u8 = if n < 10 {
            0x30 + n as u8
        } else {
            0x61 + (n - 10) as u8
        };
        let r: Vec<u8> = vec![d];
        proof {
            assert(r@ =~= hex_bytes_spec(n as int));
        }
        r
    } else {
        let mut r = hex_bytes(n / 16);
        let ghost r0 = r@;
        let m = n % 16;
        let d: u8 = if m < 10 {
            0x30 + m as u8
        } else {
            0x61 + (m - 10) as u8
        };
        r.push(d);
        proof {
            assert(r@ =~= r0 + seq![hex_digit(n as int % 16)]);
        }
        r
    }
}

/// Append a rendering, left-padded up to the width.
fn push_padded(out: &mut Vec<u8>, body: Vec<u8>, width: usize, fill: u8)
    ensures
        final(out)@ == old(out)@ + padded(body@, width as int, fill),
{
    let ghost out0 = out@;
    let mut k: usize = body.len();
    while k < width
        invariant
            body@.len() <= k <= width || (k == body@.len() && body@.len() >= width),
            out@.len() == out0.len() + k - body@.len(),
            out@ == out0 + Seq::new((k - body@.len()) as nat, |j: int| fill),
        decreases width - k,
    {
        let ghost pre = out@;
        out.push(fill);
        proof {
            assert(out@ =~= out0 + Seq::new((k + 1 - body@.len()) as nat, |j: int| fill));
        }
        k = k + 1;
    }
    let mut i: usize = 0;
    let ghost mid = out@;
    while i < body.len()
        invariant
            i <= body@.len(),
            out@ == mid + body@.subrange(0, i as int),
        decreases body@.len() - i,
    {
        out.push(body[i]);
        proof {
            assert(out@ =~= mid + body@.subrange(0, i + 1));
        }
        i = i + 1;
    }
    proof {
        assert(body@.subrange(0, body@.len() as int) =~= body@);
        if body@.len() >= width {
            assert(out@ =~= out0 + padded(body@, width as int, fill));
        } else {
            assert(out@ =~= out0 + padded(body@, width as int, fill));
        }
    }
}

/// Interpret a C-style template over a list of words. Fails on an unknown
/// conversion, a conversion without an argument left, or leftover
/// arguments, as the guest logging contract demands.
pub fn format_c_style(template: &[u8], args: &[u32]) -> (r: Result<Vec<u8>, ExecError>)
    ensures
        r matches Ok(v) ==> fmt_spec(template@, args@) == Some(v@),
        r is Err <==> fmt_spec(template@, args@) is None,
        r is Err ==> r == Result::<Vec<u8>, ExecError>::Err(ExecError::GuestFault),
{
    let n = template.len();
    let na = args.len();
    let mut out: Vec<u8> = Vec::new();
    let mut pos: usize = 0;
    let mut ai: usize = 0;
    proof {
        assert(template@.subrange(0, n as int) =~= template@);
        assert(args@.subrange(0, na as int) =~= args@);
    }
    while pos < n
        invariant
            pos <= n,
            ai <= na,
            n == template@.len(),
            na == args@.len(),
            fmt_spec(template@, args@) == (match fmt_spec(
                template@.subrange(pos as int, n as int),
                args@.subrange(ai as int, na as int),
            ) {
                Option::None => Option::<Seq<u8>>::None,
                Option::Some(rest) => Option::<Seq<u8>>::Some(out@ + rest),
            }),
        decreases n - pos,
    {
        let ghost tsuf = template@.subrange(pos as int, n as int);
        let ghost asuf = args@.subrange(ai as int, na as int);
        let c = template[pos];
        if c != 0x25 {
            let ghost out0 = out@;
            out.push(c);
            pos = pos + 1;
            proof {
                assert(tsuf[0] == c);
                assert(tsuf.subrange(1, tsuf.len() as int) =~= template@.subrange(pos as int, n as int));
                let fr = fmt_spec(template@.subrange(pos as int, n as int), asuf);
                if fr is Some {
                    assert(out@ + fr.unwrap() =~= out0 + (seq![c] + fr.unwrap()));
                }
            }
        } else {
            proof {
                assert(tsuf[0] == c);
            }
            // Parse the width digits.
            let mut dl: usize = 0;
            while pos + 1 + dl < n && 0x30 <= template[pos + 1 + dl] && template[pos + 1 + dl] <= 0x39
                invariant
                    pos < n,
                    n == template@.len(),
                    dl <= n - pos - 1,
                    digit_run(template@, pos + 1) == dl + digit_run(template@, pos + 1 + dl),
                decreases n - pos - 1 - dl,
            {
                dl = dl + 1;
            }
            proof {
                assert(digit_run(template@, pos + 1 + dl) == 0);
                assert(digit_run(template@, pos + 1) == dl);
                assert(digit_run(tsuf, 1) == dl) by {
                    lemma_digit_run_shift(template@, pos as int, 1, dl as int);
                }
            }
            // The width value; a value beyond the machine range means zero.
            proof {
                lemma_digit_run_digits(template@, pos + 1, dl as int);
            }
            let mut width: usize = 0;
            let mut over: bool = false;
            let mut k: usize = 0;
            while k < dl
                invariant
                    k <= dl,
                    pos < n,
                    pos + 1 + dl <= n,
                    n == template@.len(),
                    digit_run(template@, pos + 1) == dl,
                    forall|j: int|
                        pos + 1 <= j < pos + 1 + dl ==> 0x30 <= #[trigger] template@[j] <= 0x39,
                    !over ==> parse_width(template@, pos + 1, k as int) == Some(width as int),
                    over ==> parse_width(template@, pos + 1, k as int) is None,
                decreases dl - k,
            {
                let d = (template[pos + 1 + k] - 0x30) as usize;
                if !over {
                    let got = width.checked_mul(10);
                    match got {
                        Some(w10) => {
                            match w10.checked_add(d) {
                                Some(w) => {
                                    width = w;
                                },
                                None => {
                                    over = true;
                                },
                            }
                        },
                        None => {
                            over = true;
                        },
                    }
                }
                k = k + 1;
            }
            let w: usize = if over {
                0
            } else {
                width
            };
            proof {
                lemma_parse_width_shift(template@, pos as int, 1, dl as int);
                assert(w as int == width_of(tsuf, 1, dl as int));
            }
            // The conversion byte and its argument.
            if pos + 1 + dl >= n {
                proof {
                    assert(tsuf.len() == n - pos);
                    assert(digit_run(tsuf, 1) == dl);
                    assert(1 + digit_run(tsuf, 1) as int >= tsuf.len());
                    assert(fmt_spec(tsuf, asuf) is None);
                    assert(fmt_spec(template@, args@) is None);
                }
                return Err(ExecError::GuestFault);
            }
            if ai >= na {
                proof {
                    assert(asuf.len() == 0);
                    assert(fmt_spec(tsuf, asuf) is None);
                }
                return Err(ExecError::GuestFault);
            }
            let spec_byte = template[pos + 1 + dl];
            let arg = args[ai];
            proof {
                assert(tsuf[1 + dl] == spec_byte);
                assert(asuf[0] == arg);
            }
            let body: Vec<u8> = if spec_byte == 0x75 {
                dec_bytes(arg)
            } else if spec_byte == 0x78 {
                hex_bytes(arg)
            } else if spec_byte == 0x64 {
                if arg >= 0x8000_0000 {
                    let mut b: Vec<u8> = vec![0x2d];
                    let ghost b0 = b@;
                    let mag = dec_bytes((0xFFFF_FFFFu32 - arg) + 1);
                    let mut j: usize = 0;
                    while j < mag.len()
                        invariant
                            j <= mag@.len(),
                            b@ == b0 + mag@.subrange(0, j as int),
                        decreases mag@.len() - j,
                    {
                        b.push(mag[j]);
                        proof {
                            assert(b@ =~= b0 + mag@.subrange(0, j + 1));
                        }
                        j = j + 1;
                    }
                    proof {
                        assert(mag@.subrange(0, mag@.len() as int) =~= mag@);
                        assert(b@ =~= seq![0x2du8] + dec_bytes_spec(0x1_0000_0000 - arg as int));
                    }
                    b
                } else {
                    dec_bytes(arg)
                }
            } else {
                proof {
                    assert(render(tsuf[1 + dl], width_of(tsuf, 1, dl as int), asuf[0]) is None);
                    assert(fmt_spec(tsuf, asuf) is None);
                    assert(fmt_spec(template@, args@) is None);
                }
                return Err(ExecError::GuestFault);
            };
            let fill: u8 = if spec_byte == 0x78 {
                0x30
            } else {
                0x20
            };
            proof {
                assert(render(spec_byte, w as int, arg) == Some(padded(body@, w as int, fill)));
            }
            let ghost out0 = out@;
            push_padded(&mut out, body, w, fill);
            pos = pos + 2 + dl;
            ai = ai + 1;
            proof {
                assert(tsuf.subrange(2 + dl, tsuf.len() as int) =~= template@.subrange(
                    pos as int,
                    n as int,
                ));
                assert(asuf.subrange(1, asuf.len() as int) =~= args@.subrange(
                    ai as int,
                    na as int,
                ));
                let fr = fmt_spec(
                    template@.subrange(pos as int, n as int),
                    args@.subrange(ai as int, na as int),
                );
                if fr is Some {
                    assert(out@ + fr.unwrap() =~= out0 + (padded(
                        render_body(spec_byte, arg),
                        w as int,
                        fill,
                    ) + fr.unwrap()));
                }
            }
        }
    }
    proof {
        assert(template@.subrange(n as int, n as int) =~= Seq::<u8>::empty());
    }
    if ai != na {
        return Err(ExecError::GuestFault);
    }
    proof {
        assert(args@.subrange(na as int, na as int) =~= Seq::<u32>::empty());
    }
    Ok(out)
}

/// The unpadded rendering body of a conversion.
spec fn render_body(spec_byte: u8, arg: u32) -> Seq<u8> {
    if spec_byte == 0x78 {
        hex_bytes_spec(arg as int)
    } else if spec_byte == 0x64 && arg >= 0x8000_0000 {
        seq![0x2du8] + dec_bytes_spec(0x1_0000_0000 - arg as int)
    } else {
        dec_bytes_spec(arg as int)
    }
}

/// A digit run is the same whether counted in the full template or in a
/// suffix of it.
proof fn lemma_digit_run_shift(t: Seq<u8>, pos: int, from: int, expect: int)
    requires
        0 <= pos,
        1 <= from,
        pos + from <= t.len(),
        digit_run(t, pos + from) == expect,
    ensures
        digit_run(t.subrange(pos, t.len() as int), from) == expect,
    decreases t.len() - pos - from,
{
    let s = t.subrange(pos, t.len() as int);
    if pos + from < t.len() && 0x30 <= t[pos + from] <= 0x39 {
        lemma_digit_run_shift(t, pos, from + 1, expect - 1);
    }
}

/// A width parse is the same whether read in the full template or in a
/// suffix of it.
proof fn lemma_parse_width_shift(t: Seq<u8>, pos: int, from: int, cnt: int)
    requires
        0 <= pos,
        1 <= from,
        0 <= cnt,
        pos + from + cnt <= t.len(),
    ensures
        parse_width(t.subrange(pos, t.len() as int), from, cnt) == parse_width(
            t,
            pos + from,
            cnt,
        ),
    decreases cnt,
{
    if cnt > 0 {
        lemma_parse_width_shift(t, pos, from, cnt - 1);
    }
}

/// Every byte inside a digit run is an ASCII digit.
proof fn lemma_digit_run_digits(t: Seq<u8>, from: int, run: int)
    requires
        0 <= from <= t.len(),
        digit_run(t, from) == run,
    ensures
        forall|j: int| from <= j < from + run ==> 0x30 <= #[trigger] t[j] <= 0x39,
    decreases run,
{
    if run > 0 {
        lemma_digit_run_digits(t, from + 1, run - 1);
    }
}

} // verus!
