//! Rendering a metadata value as JSON text.

use vstd::prelude::*;
use crate::strutil::push_char;
use crate::value::JsonVal;
use crate::value::Value;
use crate::value::list_view;
use crate::value::pairs_view;

verus! {

/// The character for one decimal digit.
pub open spec fn dec_digit(d: int) -> char {
    (48 + d) as char
}

/// The decimal digits of a non-negative number.
pub open spec fn dec_nat(n: int) -> Seq<char>
    decreases n,
{
    if n < 0 {
        Seq::empty()
    } else if n < 10 {
        seq![dec_digit(n)]
    } else {
        dec_nat(n / 10).push(dec_digit(n % 10))
    }
}

/// The decimal form of an integer, with a leading minus when negative.
pub open spec fn dec_int(n: int) -> Seq<char> {
    if n < 0 {
        seq!['-'] + dec_nat(-n)
    } else {
        dec_nat(n)
    }
}

/// The character for one hexadecimal digit, lower case.
pub open spec fn hex_digit(d: int) -> char {
    if d < 10 {
        dec_digit(d)
    } else {
        (97 + (d - 10)) as char
    }
}

/// How one character appears inside a JSON string literal.
pub open spec fn esc_char(c: char) -> Seq<char> {
    if c == '"' {
        seq!['\\', '"']
    } else if c == '\\' {
        seq!['\\', '\\']
    } else if c == '\n' {
        seq!['\\', 'n']
    } else if c == '\r' {
        seq!['\\', 'r']
    } else if c == '\t' {
        seq!['\\', 't']
    } else if (c as int) < 0x20 {
        seq!['\\', 'u', '0', '0', hex_digit(c as int / 16), hex_digit(c as int % 16)]
    } else {
        seq![c]
    }
}

/// A text with every character escaped for a JSON string literal.
pub open spec fn esc_str(s: Seq<char>) -> Seq<char>
    decreases s.len(),
{
    if s.len() == 0 {
        Seq::empty()
    } else {
        esc_str(s.drop_last()) + esc_char(s.last())
    }
}

/// A JSON string literal: quoted and escaped.
pub open spec fn json_str(s: Seq<char>) -> Seq<char> {
    seq!['"'] + esc_str(s) + seq!['"']
}

/// The JSON text of a value.
pub open spec fn json_of(v: JsonVal) -> Seq<char>
    decreases v, 0int,
{
    match v {
        JsonVal::Null => seq!['n', 'u', 'l', 'l'],
        JsonVal::Bool(b) => if b {
            seq!['t', 'r', 'u', 'e']
        } else {
            seq!['f', 'a', 'l', 's', 'e']
        },
        JsonVal::Int(n) => dec_int(n),
        JsonVal::Str(s) => json_str(s),
        JsonVal::Arr(xs) => seq!['['] + json_list(xs, 0) + seq![']'],
        JsonVal::Obj(ps) => seq!['{'] + json_pairs(ps, 0) + seq!['}'],
    }
}

/// The comma-separated JSON texts of the elements from index `i` on.
pub open spec fn json_list(xs: Seq<JsonVal>, i: int) -> Seq<char>
    decreases xs, xs.len() - i,
    via json_list_dec
{
    if i < 0 || i >= xs.len() {
        Seq::empty()
    } else {
        json_of(xs[i]) + (if i + 1 < xs.len() {
            seq![',']
        } else {
            Seq::empty()
        }) + json_list(xs, i + 1)
    }
}

#[via_fn]
proof fn json_list_dec(xs: Seq<JsonVal>, i: int) {
    if 0 <= i < xs.len() {
        assert(decreases_to!(xs => xs[i]));
    }
}

/// The comma-separated JSON texts of the bindings from index `i` on.
pub open spec fn json_pairs(ps: Seq<(Seq<char>, JsonVal)>, i: int) -> Seq<char>
    decreases ps, ps.len() - i,
    via json_pairs_dec
{
    if i < 0 || i >= ps.len() {
        Seq::empty()
    } else {
        json_str(ps[i].0) + seq![':'] + json_of(ps[i].1) + (if i + 1 < ps.len() {
            seq![',']
        } else {
            Seq::empty()
        }) + json_pairs(ps, i + 1)
    }
}

#[via_fn]
proof fn json_pairs_dec(ps: Seq<(Seq<char>, JsonVal)>, i: int) {
    if 0 <= i < ps.len() {
        assert(decreases_to!(ps => ps[i]));
        assert(decreases_to!(ps[i] => ps[i].1));
    }
}

fn push_dec_u64(out: &mut String, m: u64)
    ensures
        final(out)@ == old(out)@ + dec_nat(m as int),
    decreases m,
{
    if m < 10 {
        push_char(out, (48 + m as u8) as char);
        proof {
            assert(old(out)@.push(dec_digit(m as int)) =~= old(out)@ + dec_nat(m as int));
        }
    } else {
        push_dec_u64(out, m / 10);
        push_char(out, (48 + (m % 10) as u8) as char);
        proof {
            assert((old(out)@ + dec_nat(m as int / 10)).push(dec_digit(m as int % 10)) =~= old(
                out,
            )@ + dec_nat(m as int));
        }
    }
}

/// Append the decimal digits of a number.
pub fn push_dec_u32(out: &mut String, m: u32)
    ensures
        final(out)@ == old(out)@ + dec_nat(m as int),
{
    push_dec_u64(out, m as u64);
}

fn push_dec_i64(out: &mut String, n: i64)
    ensures
        final(out)@ == old(out)@ + dec_int(n as int),
{
    if n >= 0 {
        push_dec_u64(out, n as u64);
    } else {
        push_char(out, '-');
        let m: u64 = if n == i64::MIN {
            9223372036854775808u64
        } else {
            (-n) as u64
        };
        push_dec_u64(out, m);
        proof {
            assert(old(out)@.push('-') + dec_nat(m as int) =~= old(out)@ + (seq!['-'] + dec_nat(
                -(n as int),
            )));
        }
    }
}

fn push_hex_nibble(out: &mut String, d: u32)
    requires
        d < 16,
    ensures
        final(out)@ == old(out)@.push(hex_digit(d as int)),
{
    if d < 10 {
        push_char(out, (48 + d as u8) as char);
    } else {
        push_char(out, (97 + (d - 10) as u8) as char);
    }
}

/// Append the escaped form of a text to a JSON string being built.
fn push_escaped(out: &mut String, s: &str)
    ensures
        final(out)@ == old(out)@ + esc_str(s@),
{
    let n = s.unicode_len();
    let mut i: usize = 0;
    while i < n
        invariant
            n == s@.len(),
            0 <= i <= n,
            out@ == old(out)@ + esc_str(s@.take(i as int)),
        decreases n - i,
    {
        let c = s.get_char(i);
        if c == '"' {
            push_char(out, '\\');
            push_char(out, '"');
        } else if c == '\\' {
            push_char(out, '\\');
            push_char(out, '\\');
        } else if c == '\n' {
            push_char(out, '\\');
            push_char(out, 'n');
        } else if c == '\r' {
            push_char(out, '\\');
            push_char(out, 'r');
        } else if c == '\t' {
            push_char(out, '\\');
            push_char(out, 't');
        } else if (c as u32) < 0x20 {
            push_char(out, '\\');
            push_char(out, 'u');
            push_char(out, '0');
            push_char(out, '0');
            push_hex_nibble(out, (c as u32) / 16);
            push_hex_nibble(out, (c as u32) % 16);
        } else {
            push_char(out, c);
        }
        i = i + 1;
        proof {
            let t = s@.take(i as int);
            assert(t.drop_last() =~= s@.take(i - 1));
            assert(t.last() == c);
            assert(out@ =~= old(out)@ + esc_str(t));
        }
    }
    proof {
        assert(s@.take(n as int) =~= s@);
    }
}

/// Append the JSON text of a value to a string being built.
#[verifier::loop_isolation(false)]
#[verifier::rlimit(60)]
fn write_json(out: &mut String, v: &Value)
    ensures
        final(out)@ == old(out)@ + json_of(v@),
    decreases v,
{
    match v {
        Value::Null => {
            push_char(out, 'n');
            push_char(out, 'u');
            push_char(out, 'l');
            push_char(out, 'l');
            proof {
                assert(out@ =~= old(out)@ + json_of(v@));
            }
        },
        Value::Bool(b) => {
            if *b {
                push_char(out, 't');
                push_char(out, 'r');
                push_char(out, 'u');
                push_char(out, 'e');
            } else {
                push_char(out, 'f');
                push_char(out, 'a');
                push_char(out, 'l');
                push_char(out, 's');
                push_char(out, 'e');
            }
            proof {
                assert(out@ =~= old(out)@ + json_of(v@));
            }
        },
        Value::Int(n) => {
            push_dec_i64(out, *n);
        },
        Value::Str(s) => {
            push_char(out, '"');
            push_escaped(out, s.as_str());
            push_char(out, '"');
            proof {
                assert(out@ =~= old(out)@ + json_str(s@));
            }
        },
        Value::Arr(xs) => {
            push_char(out, '[');
            let ghost lv = list_view(xs@);
            let ghost base = out@;
            let n = xs.len();
            let mut i: usize = 0;
            while i < n
                invariant
                    n == xs@.len(),
                    0 <= i <= n,
                    base == old(out)@ + seq!['['],
                    base.len() <= out@.len(),
                    out@.subrange(0, base.len() as int) == base,
                    json_list(lv, 0) == out@.skip(base.len() as int) + json_list(lv, i as int),
                decreases n - i,
            {
                let x = &xs[i];
                proof {
                    assert(decreases_to!(*v => *xs));
                    assert(decreases_to!(*xs => xs@));
                    assert(decreases_to!(xs@ => xs@[i as int]));
                    assert(lv[i as int] == xs@[i as int]@);
                }
                write_json(out, x);
                if i + 1 < n {
                    push_char(out, ',');
                }
                i = i + 1;
                proof {
                    assert(out@.subrange(0, base.len() as int) =~= base);
                    assert(json_list(lv, 0) =~= out@.skip(base.len() as int) + json_list(
                        lv,
                        i as int,
                    ));
                }
            }
            proof {
                assert(json_list(lv, n as int).len() == 0);
                assert(json_list(lv, 0) =~= out@.skip(base.len() as int));
                assert(out@ =~= out@.subrange(0, base.len() as int) + out@.skip(
                    base.len() as int,
                ));
                assert(out@ =~= base + json_list(lv, 0));
            }
            push_char(out, ']');
            proof {
                assert(out@ =~= old(out)@ + (seq!['['] + json_list(lv, 0) + seq![']']));
            }
        },
        Value::Obj(ps) => {
            push_char(out, '{');
            let ghost pv = pairs_view(ps@);
            let ghost base = out@;
            let n = ps.len();
            let mut i: usize = 0;
            while i < n
                invariant
                    n == ps@.len(),
                    0 <= i <= n,
                    base == old(out)@ + seq!['{'],
                    base.len() <= out@.len(),
                    out@.subrange(0, base.len() as int) == base,
                    json_pairs(pv, 0) == out@.skip(base.len() as int) + json_pairs(pv, i as int),
                decreases n - i,
            {
                let p = &ps[i];
                proof {
                    assert(decreases_to!(*v => *ps));
                    assert(decreases_to!(*ps => ps@));
                    assert(decreases_to!(ps@ => ps@[i as int]));
                    assert(decreases_to!(ps@[i as int] => ps@[i as int].1));
                    assert(p.1 == ps@[i as int].1);
                    assert(pv[i as int] == (ps@[i as int].0@, ps@[i as int].1@));
                }
                push_char(out, '"');
                push_escaped(out, p.0.as_str());
                push_char(out, '"');
                push_char(out, ':');
                write_json(out, &p.1);
                if i + 1 < n {
                    push_char(out, ',');
                }
                i = i + 1;
                proof {
                    assert(out@.subrange(0, base.len() as int) =~= base);
                    assert(json_pairs(pv, 0) =~= out@.skip(base.len() as int) + json_pairs(
                        pv,
                        i as int,
                    ));
                }
            }
            proof {
                assert(json_pairs(pv, n as int).len() == 0);
                assert(json_pairs(pv, 0) =~= out@.skip(base.len() as int));
                assert(out@ =~= out@.subrange(0, base.len() as int) + out@.skip(
                    base.len() as int,
                ));
                assert(out@ =~= base + json_pairs(pv, 0));
            }
            push_char(out, '}');
            proof {
                assert(out@ =~= old(out)@ + (seq!['{'] + json_pairs(pv, 0) + seq!['}']));
            }
        },
    }
}

/// The JSON text of a metadata value.
pub fn to_json_string(v: &Value) -> (r: String)
    ensures
        r@ == json_of(v@),
{
    let mut out = String::new();
    write_json(&mut out, v);
    out
}

} // verus!
