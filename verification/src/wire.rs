//! Low-level text of the wire format: string escaping, decimal numbers,
//! and literal matching, each with an exact model and a proof that parsing
//! undoes printing.

use vstd::prelude::*;

verus! {

// ---------------------------------------------------------------------------
// String escaping
// ---------------------------------------------------------------------------
/// How one character is written inside a quoted string: the quote, the
/// backslash and the three common control characters travel as two-character
/// escapes, everything else stands for itself.
pub open spec fn escape_char(c: char) -> Seq<char> {
    if c == '"' {
        seq!['\\', '"']
    } else if c == '\\' {
        seq!['\\', '\\']
    } else if c == '\n' {
        seq!['\\', 'n']
    } else if c == '\r' {
        seq!['\\', 'r']
    } else if c == '\t' {
        seq!['\\', 't']
    } else {
        seq![c]
    }
}

/// The character an escape code stands for, if the code is recognized.
pub open spec fn unescape_char(c: char) -> Option<char> {
    if c == '"' {
        Some('"')
    } else if c == '\\' {
        Some('\\')
    } else if c == 'n' {
        Some('\n')
    } else if c == 'r' {
        Some('\r')
    } else if c == 't' {
        Some('\t')
    } else {
        None
    }
}

/// A string as it is written between quotes on the wire.
pub open spec fn escape(s: Seq<char>) -> Seq<char>
    decreases s.len(),
{
    if s.len() == 0 {
        Seq::empty()
    } else {
        escape_char(s[0]) + escape(s.skip(1))
    }
}

pub proof fn lemma_escape_snoc(s: Seq<char>, c: char)
    ensures
        escape(s.push(c)) == escape(s) + escape_char(c),
    decreases s.len(),
{
    if s.len() == 0 {
        assert(s.push(c)[0] == c);
        assert(s.push(c).skip(1) =~= Seq::<char>::empty());
        assert(escape(s.push(c)) == escape_char(c) + escape(Seq::<char>::empty()));
        assert(escape_char(c) + Seq::<char>::empty() =~= escape_char(c));
        assert(escape(s) + escape_char(c) =~= escape_char(c));
    } else {
        assert(s.push(c)[0] == s[0]);
        assert(s.push(c).skip(1) =~= s.skip(1).push(c));
        lemma_escape_snoc(s.skip(1), c);
        assert(escape(s.push(c)) =~= escape(s) + escape_char(c));
    }
}

/// Escaped text never contains a newline: whatever a packet carries, it
/// stays on one line of the stream.
pub proof fn lemma_escape_no_newline(s: Seq<char>)
    ensures
        forall|i: int| 0 <= i < escape(s).len() ==> escape(s)[i] != '\n',
    decreases s.len(),
{
    if s.len() > 0 {
        lemma_escape_no_newline(s.skip(1));
        assert forall|i: int| 0 <= i < escape(s).len() implies escape(s)[i] != '\n' by {
            let head = escape_char(s[0]);
            if i < head.len() {
                assert(escape(s)[i] == head[i]);
            } else {
                assert(escape(s)[i] == escape(s.skip(1))[i - head.len()]);
            }
        }
    }
}

/// Reading a quoted string body: the characters up to the closing quote,
/// with escapes decoded, and how many characters of `t` that took,
/// closing quote included.
pub open spec fn take_str_body(t: Seq<char>) -> Option<(Seq<char>, int)>
    decreases t.len(),
{
    if t.len() == 0 {
        None
    } else if t[0] == '"' {
        Some((Seq::empty(), 1))
    } else if t[0] == '\\' {
        if t.len() < 2 {
            None
        } else {
            match unescape_char(t[1]) {
                None => None,
                Some(c) => match take_str_body(t.skip(2)) {
                    None => None,
                    Some((s, n)) => Some((seq![c] + s, n + 2)),
                },
            }
        }
    } else {
        match take_str_body(t.skip(1)) {
            None => None,
            Some((s, n)) => Some((seq![t[0]] + s, n + 1)),
        }
    }
}

/// Reading undoes writing: an escaped string followed by its closing quote
/// parses back to the original characters, consuming exactly the escaped
/// text and the quote.
pub proof fn lemma_take_str_body_of_escape(s: Seq<char>, rest: Seq<char>)
    ensures
        take_str_body(escape(s) + seq!['"'] + rest) == Some((s, escape(s).len() as int + 1)),
    decreases s.len(),
{
    let t = escape(s) + seq!['"'] + rest;
    if s.len() == 0 {
        assert(t[0] == '"');
        assert(take_str_body(t) == Some((Seq::<char>::empty(), 1int)));
        assert(s =~= Seq::<char>::empty());
    } else {
        let c = s[0];
        let tail = s.skip(1);
        lemma_take_str_body_of_escape(tail, rest);
        let t_tail = escape(tail) + seq!['"'] + rest;
        if c == '"' || c == '\\' || c == '\n' || c == '\r' || c == '\t' {
            assert(escape_char(c).len() == 2);
            assert(t[0] == '\\');
            assert(t[1] == escape_char(c)[1]);
            assert(unescape_char(escape_char(c)[1]) == Some(c));
            assert(t.skip(2) =~= t_tail);
            assert(take_str_body(t_tail) == Some((tail, escape(tail).len() as int + 1)));
            assert(seq![c] + tail =~= s);
            assert(take_str_body(t) == Some((s, escape(tail).len() as int + 3)));
            assert(escape(s).len() == 2 + escape(tail).len());
        } else {
            assert(escape_char(c) =~= seq![c]);
            assert(t[0] == c);
            assert(t[0] != '"' && t[0] != '\\');
            assert(t.skip(1) =~= t_tail);
            assert(seq![c] + tail =~= s);
            assert(escape(s).len() == 1 + escape(tail).len());
        }
    }
}

/// Append `s`, escaped, to `out`.
pub fn append_escaped(out: &mut String, s: &str)
    ensures
        final(out)@ == old(out)@ + escape(s@),
{
    let n = s.unicode_len();
    let mut i: usize = 0;
    proof {
        assert(s@.take(0) =~= Seq::<char>::empty());
        assert(out@ + escape(s@.take(0)) =~= out@);
    }
    while i < n
        invariant
            n == s@.len(),
            i <= n,
            out@ == old(out)@ + escape(s@.take(i as int)),
        decreases n - i,
    {
        let c = s.get_char(i);
        if c == '"' {
            out.append("\\\"");
            proof {
                reveal_strlit("\\\"");
                assert("\\\""@ =~= escape_char(c));
            }
        } else if c == '\\' {
            out.append("\\\\");
            proof {
                reveal_strlit("\\\\");
                assert("\\\\"@ =~= escape_char(c));
            }
        } else if c == '\n' {
            out.append("\\n");
            proof {
                reveal_strlit("\\n");
                assert("\\n"@ =~= escape_char(c));
            }
        } else if c == '\r' {
            out.append("\\r");
            proof {
                reveal_strlit("\\r");
                assert("\\r"@ =~= escape_char(c));
            }
        } else if c == '\t' {
            out.append("\\t");
            proof {
                reveal_strlit("\\t");
                assert("\\t"@ =~= escape_char(c));
            }
        } else {
            let piece = s.substring_char(i, i + 1);
            out.append(piece);
            proof {
                assert(piece@ =~= seq![c]);
                assert(piece@ =~= escape_char(c));
            }
        }
        proof {
            assert(s@.take(i + 1) =~= s@.take(i as int).push(c));
            lemma_escape_snoc(s@.take(i as int), c);
            assert(out@ =~= old(out)@ + escape(s@.take(i + 1)));
        }
        i = i + 1;
    }
    proof {
        assert(s@.take(n as int) =~= s@);
    }
}

/// Read a quoted string body out of `s` starting at `i` (just past the
/// opening quote): the decoded contents and the position just past the
/// closing quote.
pub fn eat_str_body(s: &str, n: usize, i: usize) -> (r: Option<(String, usize)>)
    requires
        n == s@.len(),
        i <= n,
    ensures
        match r {
            Some(p) => i <= p.1 <= n && take_str_body(s@.skip(i as int)) == Some(
                (p.0@, p.1 - i as int),
            ),
            None => take_str_body(s@.skip(i as int)) is None,
        },
{
    let mut out = String::new();
    let mut pos = i;
    loop
        invariant
            n == s@.len(),
            i <= pos <= n,
            take_str_body(s@.skip(i as int)) is Some <==> take_str_body(s@.skip(pos as int))
                is Some,
            take_str_body(s@.skip(pos as int)) matches Some((tail, m)) ==> take_str_body(
                s@.skip(i as int),
            ) == Some((out@ + tail, (pos - i as int) + m)),
        decreases n - pos,
    {
        if pos >= n {
            proof {
                assert(s@.skip(pos as int) =~= Seq::<char>::empty());
            }
            return None;
        }
        let c = s.get_char(pos);
        proof {
            assert(s@.skip(pos as int)[0] == c);
        }
        if c == '"' {
            proof {
                assert(take_str_body(s@.skip(pos as int)) == Some((Seq::<char>::empty(), 1int)));
                assert(out@ + Seq::<char>::empty() =~= out@);
            }
            return Some((out, pos + 1));
        } else if c == '\\' {
            if pos + 1 >= n {
                proof {
                    assert(s@.skip(pos as int).len() < 2);
                }
                return None;
            }
            let c2 = s.get_char(pos + 1);
            proof {
                assert(s@.skip(pos as int)[1] == c2);
                assert(s@.skip(pos as int).skip(2) =~= s@.skip(pos + 2));
            }
            let decoded: &str = if c2 == '"' {
                "\""
            } else if c2 == '\\' {
                "\\"
            } else if c2 == 'n' {
                "\n"
            } else if c2 == 'r' {
                "\r"
            } else if c2 == 't' {
                "\t"
            } else {
                return None;
            };
            proof {
                reveal_strlit("\"");
                reveal_strlit("\\");
                reveal_strlit("\n");
                reveal_strlit("\r");
                reveal_strlit("\t");
                assert(unescape_char(c2) matches Some(d) && decoded@ =~= seq![d]);
            }
            let ghost out_before = out@;
            out.append(decoded);
            proof {
                let d = unescape_char(c2)->Some_0;
                assert(out@ =~= out_before + seq![d]);
                match take_str_body(s@.skip(pos + 2)) {
                    Some(p) => {
                        let (tail, m) = p;
                        assert(take_str_body(s@.skip(pos as int)) == Some(
                            (seq![d] + tail, m + 2),
                        ));
                        assert(out_before + (seq![d] + tail) =~= out@ + tail);
                    },
                    None => {},
                }
            }
            pos = pos + 2;
        } else {
            let piece = s.substring_char(pos, pos + 1);
            proof {
                assert(piece@ =~= seq![c]);
                assert(s@.skip(pos as int).skip(1) =~= s@.skip(pos + 1));
            }
            let ghost out_before = out@;
            out.append(piece);
            proof {
                match take_str_body(s@.skip(pos + 1)) {
                    Some(p) => {
                        let (tail, m) = p;
                        assert(take_str_body(s@.skip(pos as int)) == Some(
                            (seq![c] + tail, m + 1),
                        ));
                        assert(out_before + (seq![c] + tail) =~= out@ + tail);
                    },
                    None => {},
                }
            }
            pos = pos + 1;
        }
    }
}

// ---------------------------------------------------------------------------
// Decimal numbers
// ---------------------------------------------------------------------------
pub open spec fn digit_char(d: int) -> char {
    if d == 0 {
        '0'
    } else if d == 1 {
        '1'
    } else if d == 2 {
        '2'
    } else if d == 3 {
        '3'
    } else if d == 4 {
        '4'
    } else if d == 5 {
        '5'
    } else if d == 6 {
        '6'
    } else if d == 7 {
        '7'
    } else if d == 8 {
        '8'
    } else {
        '9'
    }
}

pub open spec fn is_digit(c: char) -> bool {
    c == '0' || c == '1' || c == '2' || c == '3' || c == '4' || c == '5' || c == '6' || c == '7'
        || c == '8' || c == '9'
}

pub open spec fn char_digit(c: char) -> int {
    if c == '0' {
        0
    } else if c == '1' {
        1
    } else if c == '2' {
        2
    } else if c == '3' {
        3
    } else if c == '4' {
        4
    } else if c == '5' {
        5
    } else if c == '6' {
        6
    } else if c == '7' {
        7
    } else if c == '8' {
        8
    } else {
        9
    }
}

/// The decimal writing of `v`, most significant digit first, no sign, no
/// leading zeros (except for the single digit of zero itself).
pub open spec fn dec_digits(v: nat) -> Seq<char>
    decreases v,
{
    if v < 10 {
        seq![digit_char(v as int)]
    } else {
        dec_digits(v / 10) + seq![digit_char((v % 10) as int)]
    }
}

/// The value of a run of digit characters.
pub open spec fn digits_val(s: Seq<char>) -> int
    decreases s.len(),
{
    if s.len() == 0 {
        0
    } else {
        digits_val(s.drop_last()) * 10 + char_digit(s.last())
    }
}

/// How many digit characters stand at the front of `t`.
pub open spec fn count_digits(t: Seq<char>) -> int
    decreases t.len(),
{
    if t.len() > 0 && is_digit(t[0]) {
        1 + count_digits(t.skip(1))
    } else {
        0
    }
}

/// Reading an unsigned decimal: its value and how many characters it took.
/// Fails when no digit is present or the value exceeds `u64::MAX`.
pub open spec fn take_u64(t: Seq<char>) -> Option<(u64, int)> {
    let k = count_digits(t);
    if k == 0 {
        None
    } else if digits_val(t.take(k)) > u64::MAX {
        None
    } else {
        Some((digits_val(t.take(k)) as u64, k))
    }
}

pub proof fn lemma_dec_digits_wf(v: nat)
    ensures
        dec_digits(v).len() >= 1,
        forall|i: int| 0 <= i < dec_digits(v).len() ==> is_digit(#[trigger] dec_digits(v)[i]),
        digits_val(dec_digits(v)) == v,
    decreases v,
{
    if v < 10 {
        let w = seq![digit_char(v as int)];
        assert(dec_digits(v) =~= w);
        assert(w.drop_last() =~= Seq::<char>::empty());
        assert(w.last() == digit_char(v as int));
        assert(digits_val(w) == digits_val(Seq::<char>::empty()) * 10 + char_digit(
            digit_char(v as int),
        ));
        assert(char_digit(digit_char(v as int)) == v);
    } else {
        lemma_dec_digits_wf(v / 10);
        let w = dec_digits(v / 10);
        let d = digit_char((v % 10) as int);
        assert(dec_digits(v) =~= w.push(d));
        assert(dec_digits(v).drop_last() =~= w);
        assert(dec_digits(v).last() == d);
        assert(char_digit(d) == v % 10);
        assert(digits_val(dec_digits(v)) == (v / 10) * 10 + v % 10);
        vstd::arithmetic::div_mod::lemma_fundamental_div_mod(v as int, 10);
        assert forall|i: int| 0 <= i < dec_digits(v).len() implies is_digit(
            #[trigger] dec_digits(v)[i],
        ) by {
            if i < w.len() {
                assert(dec_digits(v)[i] == w[i]);
            } else {
                assert(dec_digits(v)[i] == d);
            }
        }
    }
}

/// A run of `k` digits followed by a non-digit (or the end) counts as
/// exactly `k`.
pub proof fn lemma_count_digits_exact(t: Seq<char>, k: int)
    requires
        0 <= k <= t.len(),
        forall|i: int| 0 <= i < k ==> is_digit(#[trigger] t[i]),
        k == t.len() || !is_digit(t[k]),
    ensures
        count_digits(t) == k,
    decreases k,
{
    if k == 0 {
        if t.len() > 0 {
            assert(!is_digit(t[0]));
        }
    } else {
        assert(is_digit(t[0]));
        lemma_count_digits_exact(t.skip(1), k - 1);
    }
}

/// Appending digits never lowers the value.
pub proof fn lemma_digits_val_monotone(s: Seq<char>, k1: int, k2: int)
    requires
        0 <= k1 <= k2 <= s.len(),
        forall|i: int| 0 <= i < s.len() ==> char_digit(#[trigger] s[i]) >= 0,
    ensures
        digits_val(s.take(k1)) <= digits_val(s.take(k2)),
    decreases k2 - k1,
{
    lemma_digits_val_nonneg(s.take(k1));
    if k1 < k2 {
        lemma_digits_val_monotone(s, k1 + 1, k2);
        let a = s.take(k1);
        let b = s.take(k1 + 1);
        assert(b.drop_last() =~= a);
        assert(digits_val(b) == digits_val(a) * 10 + char_digit(s[k1]));
        lemma_digits_val_nonneg(a);
        assert(digits_val(a) * 10 >= digits_val(a)) by (nonlinear_arith)
            requires
                digits_val(a) >= 0,
        ;
    }
}

pub proof fn lemma_digits_val_nonneg(s: Seq<char>)
    ensures
        digits_val(s) >= 0,
    decreases s.len(),
{
    if s.len() > 0 {
        lemma_digits_val_nonneg(s.drop_last());
        let v = digits_val(s.drop_last());
        assert(v * 10 >= 0) by (nonlinear_arith)
            requires
                v >= 0,
        ;
        assert(char_digit(s.last()) >= 0);
    }
}

/// Reading undoes writing for decimal numbers, provided the text goes on
/// with something other than a digit.
pub proof fn lemma_take_u64_of_dec(v: u64, rest: Seq<char>)
    requires
        rest.len() == 0 || !is_digit(rest[0]),
    ensures
        take_u64(dec_digits(v as nat) + rest) == Some((v, dec_digits(v as nat).len() as int)),
{
    let w = dec_digits(v as nat);
    let t = w + rest;
    lemma_dec_digits_wf(v as nat);
    assert(forall|i: int| 0 <= i < w.len() ==> is_digit(#[trigger] t[i]));
    if w.len() < t.len() {
        assert(t[w.len() as int] == rest[0]);
    }
    lemma_count_digits_exact(t, w.len() as int);
    assert(t.take(w.len() as int) =~= w);
}

fn digit_value(c: char) -> (r: Option<u64>)
    ensures
        r is Some <==> is_digit(c),
        r matches Some(d) ==> d == char_digit(c),
{
    if c == '0' {
        Some(0)
    } else if c == '1' {
        Some(1)
    } else if c == '2' {
        Some(2)
    } else if c == '3' {
        Some(3)
    } else if c == '4' {
        Some(4)
    } else if c == '5' {
        Some(5)
    } else if c == '6' {
        Some(6)
    } else if c == '7' {
        Some(7)
    } else if c == '8' {
        Some(8)
    } else if c == '9' {
        Some(9)
    } else {
        None
    }
}

fn append_digit(out: &mut String, d: u64)
    requires
        d < 10,
    ensures
        final(out)@ == old(out)@ + seq![digit_char(d as int)],
{
    if d == 0 {
        out.append("0");
        proof {
            reveal_strlit("0");
            assert("0"@ =~= seq![digit_char(d as int)]);
        }
    } else if d == 1 {
        out.append("1");
        proof {
            reveal_strlit("1");
            assert("1"@ =~= seq![digit_char(d as int)]);
        }
    } else if d == 2 {
        out.append("2");
        proof {
            reveal_strlit("2");
            assert("2"@ =~= seq![digit_char(d as int)]);
        }
    } else if d == 3 {
        out.append("3");
        proof {
            reveal_strlit("3");
            assert("3"@ =~= seq![digit_char(d as int)]);
        }
    } else if d == 4 {
        out.append("4");
        proof {
            reveal_strlit("4");
            assert("4"@ =~= seq![digit_char(d as int)]);
        }
    } else if d == 5 {
        out.append("5");
        proof {
            reveal_strlit("5");
            assert("5"@ =~= seq![digit_char(d as int)]);
        }
    } else if d == 6 {
        out.append("6");
        proof {
            reveal_strlit("6");
            assert("6"@ =~= seq![digit_char(d as int)]);
        }
    } else if d == 7 {
        out.append("7");
        proof {
            reveal_strlit("7");
            assert("7"@ =~= seq![digit_char(d as int)]);
        }
    } else if d == 8 {
        out.append("8");
        proof {
            reveal_strlit("8");
            assert("8"@ =~= seq![digit_char(d as int)]);
        }
    } else {
        out.append("9");
        proof {
            reveal_strlit("9");
            assert("9"@ =~= seq![digit_char(d as int)]);
        }
    }
}

/// Append the decimal writing of `v` to `out`.
pub fn append_u64(out: &mut String, v: u64)
    ensures
        final(out)@ == old(out)@ + dec_digits(v as nat),
    decreases v,
{
    if v >= 10 {
        append_u64(out, v / 10);
    }
    append_digit(out, v % 10);
    proof {
        if v < 10 {
            assert(dec_digits(v as nat) =~= seq![digit_char(v as int)]);
        } else {
            assert(old(out)@ + dec_digits((v / 10) as nat) + seq![
                digit_char((v % 10) as int),
            ] =~= old(out)@ + dec_digits(v as nat));
        }
    }
}

/// Read an unsigned decimal out of `s` starting at `i`: its value and the
/// position just past its digits.
pub fn eat_u64(s: &str, n: usize, i: usize) -> (r: Option<(u64, usize)>)
    requires
        n == s@.len(),
        i <= n,
    ensures
        match r {
            Some(p) => i <= p.1 <= n && take_u64(s@.skip(i as int)) == Some((p.0, p.1 - i as int)),
            None => take_u64(s@.skip(i as int)) is None,
        },
{
    let ghost t = s@.skip(i as int);
    proof {
        assert(forall|m: int| 0 <= m < t.len() ==> char_digit(#[trigger] t[m]) >= 0);
    }
    // First find the digit run.
    let mut j = i;
    while j < n && digit_value(s.get_char(j)).is_some()
        invariant
            n == s@.len(),
            i <= j <= n,
            forall|m: int| i <= m < j ==> is_digit(#[trigger] s@[m]),
        decreases n - j,
    {
        j = j + 1;
    }
    proof {
        assert(forall|m: int| 0 <= m < j - i ==> is_digit(#[trigger] t[m]));
        if j < n {
            assert(t[j - i as int] == s@[j as int]);
            assert(!is_digit(t[j - i as int]));
        }
        lemma_count_digits_exact(t, j - i as int);
    }
    if j == i {
        return None;
    }
    // Then accumulate the value, watching for overflow.
    let mut val: u64 = 0;
    let mut m = i;
    proof {
        assert(t.take(0) =~= Seq::<char>::empty());
    }
    while m < j
        invariant
            n == s@.len(),
            i <= m <= j <= n,
            forall|q: int| i <= q < j ==> is_digit(#[trigger] s@[q]),
            t == s@.skip(i as int),
            forall|q: int| 0 <= q < t.len() ==> char_digit(#[trigger] t[q]) >= 0,
            count_digits(t) == j - i,
            val == digits_val(t.take(m - i as int)),
        decreases j - m,
    {
        let c = s.get_char(m);
        let d = match digit_value(c) {
            Some(d) => d,
            None => {
                proof {
                    assert(is_digit(s@[m as int]));
                }
                return None;
            },
        };
        proof {
            assert(t[m - i as int] == c);
        }
        let next = match val.checked_mul(10) {
            Some(x) => x.checked_add(d),
            None => None,
        };
        match next {
            Some(x) => {
                proof {
                    assert(t.take(m + 1 - i as int).drop_last() =~= t.take(m - i as int));
                    assert(t.take(m + 1 - i as int).last() == c);
                }
                val = x;
                m = m + 1;
            },
            None => {
                proof {
                    assert(t.take(m + 1 - i as int).drop_last() =~= t.take(m - i as int));
                    assert(t.take(m + 1 - i as int).last() == c);
                    assert(digits_val(t.take(m + 1 - i as int)) > u64::MAX);
                    lemma_digits_val_monotone(t, m + 1 - i as int, j - i as int);
                }
                return None;
            },
        }
    }
    Some((val, j))
}

// ---------------------------------------------------------------------------
// Literals
// ---------------------------------------------------------------------------
/// Matching a fixed literal at the front of `t`: how many characters it
/// consumed, if it is there.
pub open spec fn take_lit(t: Seq<char>, lit: Seq<char>) -> Option<int> {
    if lit.len() <= t.len() && t.take(lit.len() as int) == lit {
        Some(lit.len() as int)
    } else {
        None
    }
}

pub proof fn lemma_take_lit_of_self(lit: Seq<char>, rest: Seq<char>)
    ensures
        take_lit(lit + rest, lit) == Some(lit.len() as int),
        (lit + rest).skip(lit.len() as int) == rest,
{
    assert((lit + rest).take(lit.len() as int) =~= lit);
    assert((lit + rest).skip(lit.len() as int) =~= rest);
}

/// Check for `lit` in `s` at position `i`; the position just past it on a
/// match.
pub fn eat_lit(s: &str, n: usize, i: usize, lit: &str, lit_n: usize) -> (r: Option<usize>)
    requires
        n == s@.len(),
        i <= n,
        lit_n == lit@.len(),
    ensures
        match r {
            Some(j) => i <= j <= n && take_lit(s@.skip(i as int), lit@) == Some(j - i as int),
            None => take_lit(s@.skip(i as int), lit@) is None,
        },
{
    let ghost t = s@.skip(i as int);
    if n - i < lit_n {
        proof {
            assert(t.len() < lit@.len());
        }
        return None;
    }
    let mut k: usize = 0;
    while k < lit_n
        invariant
            n == s@.len(),
            i <= n,
            lit_n == lit@.len(),
            lit_n <= n - i,
            k <= lit_n,
            t == s@.skip(i as int),
            forall|m: int| 0 <= m < k ==> t[m] == lit@[m],
        decreases lit_n - k,
    {
        let a = s.get_char(i + k);
        let b = lit.get_char(k);
        proof {
            assert(t[k as int] == s@[i + k]);
        }
        if a != b {
            proof {
                assert(t.take(lit@.len() as int)[k as int] != lit@[k as int]);
            }
            return None;
        }
        k = k + 1;
    }
    proof {
        assert(t.take(lit@.len() as int) =~= lit@);
    }
    Some(i + lit_n)
}

} // verus!
