//! OpenMetrics text serialization of the registry: decimal rendering, label
//! escaping, one line per series, and the full two-family exposition.

use vstd::prelude::*;
use vstd::string::StrSliceExecFns;
use vstd::string::StringExecFns;

use crate::device::{InfoKey, PowerKey, PowerUse, DeviceInfo};
use crate::metrics::StateView;

verus! {

/// Relies on `String::push`: appends exactly the one character.
pub assume_specification[ String::push ](s: &mut String, ch: char)
    ensures
        final(s)@ == old(s)@ + seq![ch],
;

pub open spec fn dec_digit(d: int) -> char {
    if d == 0 {
        '0'
    } else if d == 1 {
        '1'
    } else if d == 2 {
        '2'
    } else if d == 3 {
        '3'
    } else if d == 4 {
        '4'
    } else if d == 5 {
        '5'
    } else if d == 6 {
        '6'
    } else if d == 7 {
        '7'
    } else if d == 8 {
        '8'
    } else {
        '9'
    }
}

/// Decimal numeral of a non-negative integer, most significant digit first,
/// with no leading zero except for zero itself.
pub open spec fn dec_nat(n: int) -> Seq<char>
    recommends
        n >= 0,
    decreases n,
{
    if n < 10 {
        seq![dec_digit(n)]
    } else {
        dec_nat(n / 10) + seq![dec_digit(n % 10)]
    }
}

/// Decimal numeral of a signed integer.
pub open spec fn dec_i64(v: int) -> Seq<char> {
    if v < 0 {
        seq!['-'] + dec_nat(-v)
    } else {
        dec_nat(v)
    }
}

/// How one character of a label value is written: backslash, double quote
/// and line feed are escaped, everything else stands as it is.
pub open spec fn esc_char(c: char) -> Seq<char> {
    if c == '\\' {
        seq!['\\', '\\']
    } else if c == '"' {
        seq!['\\', '"']
    } else if c == '\n' {
        seq!['\\', 'n']
    } else {
        seq![c]
    }
}

/// A label value as written between its double quotes.
pub open spec fn esc(s: Seq<char>) -> Seq<char>
    decreases s.len(),
{
    if s.len() == 0 {
        Seq::empty()
    } else {
        esc(s.drop_last()) + esc_char(s.last())
    }
}

/// One `power_use_watts` series line.
pub open spec fn power_line(k: PowerKey, v: i64) -> Seq<char> {
    "power_use_watts{power_strip_id=\""@ + esc(k.power_strip_id) + "\",device_id=\""@ + esc(
        k.device_id,
    ) + "\",nickname=\""@ + esc(k.nickname) + "\",position=\""@ + dec_nat(k.position as int)
        + "\"} "@ + dec_i64(v as int) + "\n"@
}

/// One `device_info` series line.
pub open spec fn info_line(k: InfoKey, v: i64) -> Seq<char> {
    "device_info{power_strip_id=\""@ + esc(k.power_strip_id) + "\",model=\""@ + esc(k.model)
        + "\",firmware_version=\""@ + esc(k.firmware_version) + "\"} "@ + dec_i64(v as int)
        + "\n"@
}

/// The series lines of the `power_use_watts` family, in family order.
pub open spec fn power_lines(fam: Seq<(PowerKey, i64)>) -> Seq<char>
    decreases fam.len(),
{
    if fam.len() == 0 {
        Seq::empty()
    } else {
        power_lines(fam.drop_last()) + power_line(fam.last().0, fam.last().1)
    }
}

/// The series lines of the `device_info` family, in family order.
pub open spec fn info_lines(fam: Seq<(InfoKey, i64)>) -> Seq<char>
    decreases fam.len(),
{
    if fam.len() == 0 {
        Seq::empty()
    } else {
        info_lines(fam.drop_last()) + info_line(fam.last().0, fam.last().1)
    }
}

/// The whole exposition: both families, each with its HELP and TYPE header,
/// closed by the EOF marker.
pub open spec fn spec_encode(s: StateView) -> Seq<char> {
    "# HELP power_use_watts Current power use in watts.\n"@
        + "# TYPE power_use_watts gauge\n"@ + power_lines(s.power_use)
        + "# HELP device_info Device information.\n"@ + "# TYPE device_info gauge\n"@
        + info_lines(s.device_info) + "# EOF\n"@
}

fn digit_char(d: u64) -> (c: char)
    requires
        d < 10,
    ensures
        c == dec_digit(d as int),
{
    match d {
        0 => '0',
        1 => '1',
        2 => '2',
        3 => '3',
        4 => '4',
        5 => '5',
        6 => '6',
        7 => '7',
        8 => '8',
        _ => '9',
    }
}

fn push_dec_u64(out: &mut String, n: u64)
    ensures
        final(out)@ == old(out)@ + dec_nat(n as int),
    decreases n,
{
    if n < 10 {
        out.push(digit_char(n));
    } else {
        push_dec_u64(out, n / 10);
        out.push(digit_char(n % 10));
        proof {
            assert(out@ =~= old(out)@ + dec_nat(n as int));
        }
    }
}

fn push_dec_i64(out: &mut String, v: i64)
    ensures
        final(out)@ == old(out)@ + dec_i64(v as int),
{
    if v >= 0 {
        push_dec_u64(out, v as u64);
    } else {
        out.push('-');
        let m: u64 = ((-(v + 1)) as u64) + 1;
        proof {
            assert(m as int == -(v as int));
        }
        push_dec_u64(out, m);
        proof {
            assert(out@ =~= old(out)@ + dec_i64(v as int));
        }
    }
}

proof fn lemma_esc_step(s: Seq<char>, i: int)
    requires
        0 <= i < s.len(),
    ensures
        esc(s.take(i + 1)) == esc(s.take(i)) + esc_char(s[i]),
{
    assert(s.take(i + 1).drop_last() =~= s.take(i));
    assert(s.take(i + 1).last() == s[i]);
}

fn push_escaped(out: &mut String, s: &String)
    ensures
        final(out)@ == old(out)@ + esc(s@),
{
    let sl = s.as_str();
    let n = sl.unicode_len();
    let mut i: usize = 0;
    proof {
        assert(s@.take(0) =~= Seq::<char>::empty());
    }
    while i < n
        invariant
            n == s@.len(),
            sl@ == s@,
            i <= n,
            out@ == old(out)@ + esc(s@.take(i as int)),
        decreases n - i,
    {
        let c = sl.get_char(i);
        if c == '\\' {
            out.push('\\');
            out.push('\\');
        } else if c == '"' {
            out.push('\\');
            out.push('"');
        } else if c == '\n' {
            out.push('\\');
            out.push('n');
        } else {
            out.push(c);
        }
        proof {
            lemma_esc_step(s@, i as int);
            assert(out@ =~= old(out)@ + esc(s@.take(i as int + 1)));
        }
        i += 1;
    }
    proof {
        assert(s@.take(n as int) =~= s@);
    }
}

/// Writes one `power_use_watts` series line for a stored label set.
pub(crate) fn push_power_line(out: &mut String, k: &PowerUse, v: i64)
    ensures
        final(out)@ == old(out)@ + power_line(k@, v),
{
    out.append("power_use_watts{power_strip_id=\"");
    push_escaped(out, &k.power_strip_id);
    out.append("\",device_id=\"");
    push_escaped(out, &k.device_id);
    out.append("\",nickname=\"");
    push_escaped(out, &k.nickname);
    out.append("\",position=\"");
    push_dec_u64(out, k.position as u64);
    out.append("\"} ");
    push_dec_i64(out, v);
    out.append("\n");
    proof {
        assert(out@ =~= old(out)@ + power_line(k@, v));
    }
}

/// Writes one `device_info` series line for a stored label set.
pub(crate) fn push_info_line(out: &mut String, k: &DeviceInfo, v: i64)
    ensures
        final(out)@ == old(out)@ + info_line(k@, v),
{
    out.append("device_info{power_strip_id=\"");
    push_escaped(out, &k.power_strip_id);
    out.append("\",model=\"");
    push_escaped(out, &k.model);
    out.append("\",firmware_version=\"");
    push_escaped(out, &k.firmware_version);
    out.append("\"} ");
    push_dec_i64(out, v);
    out.append("\n");
    proof {
        assert(out@ =~= old(out)@ + info_line(k@, v));
    }
}

} // verus!
