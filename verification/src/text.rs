//! Character-level text primitives shared by the encoder and the decoder:
//! decimal printing and parsing, fixed literals, quoted values, lines, and
//! the inversion lemmas that tie a parse of printed text back to the value
//! that was printed.

use vstd::prelude::*;

verus! {

// ---------------------------------------------------------------------------
// Decimal digits
// ---------------------------------------------------------------------------
/// `c` is a decimal digit.
pub open spec fn is_digit(c: char) -> bool {
    48 <= c as int <= 57
}

/// Numeric value of a digit character.
pub open spec fn digit_val(c: char) -> int {
    c as int - 48
}

/// The digit character of a value in `0..10`.
pub open spec fn digit_char(d: int) -> char {
    if d == 0 {
        '0'
    } else if d == 1 {
        '1'
    } else if d == 2 {
        '2'
    } else if d == 3 {
        '3'
    } else if d == 4 {
        '4'
    } else if d == 5 {
        '5'
    } else if d == 6 {
        '6'
    } else if d == 7 {
        '7'
    } else if d == 8 {
        '8'
    } else {
        '9'
    }
}

/// Decimal digit string of `n`, most significant first, no leading zeros
/// (except for `n == 0` itself).
pub open spec fn dec_digits(n: nat) -> Seq<char>
    decreases n,
{
    if n < 10 {
        seq![digit_char(n as int)]
    } else {
        dec_digits(n / 10).push(digit_char((n % 10) as int))
    }
}

/// Decimal text of an integer: a minus sign for negatives, then digits.
pub open spec fn int_chars(n: int) -> Seq<char> {
    if n < 0 {
        seq!['-'] + dec_digits((-n) as nat)
    } else {
        dec_digits(n as nat)
    }
}

/// Value of a digit string, most significant first.
pub open spec fn digits_val(d: Seq<char>) -> int
    decreases d.len(),
{
    if d.len() == 0 {
        0
    } else {
        digits_val(d.drop_last()) * 10 + digit_val(d.last())
    }
}

/// `n` fits in an `i64`.
pub open spec fn in_i64(n: int) -> bool {
    i64::MIN <= n <= i64::MAX
}

pub proof fn lemma_dec_digits_digits(n: nat)
    ensures
        dec_digits(n).len() >= 1,
        forall|i: int| 0 <= i < dec_digits(n).len() ==> is_digit(#[trigger] dec_digits(n)[i]),
    decreases n,
{
    if n >= 10 {
        lemma_dec_digits_digits(n / 10);
    }
}

/// The digit characters carry exactly the values `0` through `9`.
pub proof fn lemma_digit_char_val(d: int)
    requires
        0 <= d < 10,
    ensures
        is_digit(digit_char(d)),
        digit_val(digit_char(d)) == d,
{
    assert('0' as int == 48);
    assert('1' as int == 49);
    assert('2' as int == 50);
    assert('3' as int == 51);
    assert('4' as int == 52);
    assert('5' as int == 53);
    assert('6' as int == 54);
    assert('7' as int == 55);
    assert('8' as int == 56);
    assert('9' as int == 57);
}

pub proof fn lemma_digits_val_dec_digits(n: nat)
    ensures
        digits_val(dec_digits(n)) == n,
    decreases n,
{
    if n < 10 {
        lemma_digit_char_val(n as int);
        assert(dec_digits(n) == seq![digit_char(n as int)]);
        assert(dec_digits(n).drop_last() =~= Seq::<char>::empty());
        assert(dec_digits(n).last() == digit_char(n as int));
        assert(digits_val(dec_digits(n)) == digits_val(Seq::<char>::empty()) * 10 + digit_val(
            digit_char(n as int),
        ));
    } else {
        lemma_digits_val_dec_digits(n / 10);
        lemma_digit_char_val((n % 10) as int);
        assert(dec_digits(n) == dec_digits(n / 10).push(digit_char((n % 10) as int)));
        assert(dec_digits(n).drop_last() =~= dec_digits(n / 10));
        assert(dec_digits(n).last() == digit_char((n % 10) as int));
        assert(digits_val(dec_digits(n)) == digits_val(dec_digits(n / 10)) * 10 + digit_val(
            dec_digits(n).last(),
        ));
        assert((n / 10) * 10 + (n % 10) == n);
    }
}

pub proof fn lemma_digits_val_nonneg(d: Seq<char>)
    requires
        forall|i: int| 0 <= i < d.len() ==> is_digit(#[trigger] d[i]),
    ensures
        digits_val(d) >= 0,
    decreases d.len(),
{
    if d.len() > 0 {
        lemma_digits_val_nonneg(d.drop_last());
    }
}

// ---------------------------------------------------------------------------
// Suffix-style parsing primitives over `Seq<char>`
// ---------------------------------------------------------------------------
/// `s` holds no newline.
pub open spec fn no_nl(s: Seq<char>) -> bool {
    forall|i: int| 0 <= i < s.len() ==> s[i] != '\n'
}

/// `s` can stand between double quotes: no quote, no newline.
pub open spec fn qsafe(s: Seq<char>) -> bool {
    forall|i: int| 0 <= i < s.len() ==> s[i] != '"' && s[i] != '\n'
}

/// Strip the exact literal `lit` from the front of `s`.
pub open spec fn sp_lit(s: Seq<char>, lit: Seq<char>) -> Option<Seq<char>> {
    if lit.len() <= s.len() && s.take(lit.len() as int) == lit {
        Some(s.skip(lit.len() as int))
    } else {
        None
    }
}

/// The text up to the first newline, and the text after that newline.
pub open spec fn sp_line(s: Seq<char>) -> Option<(Seq<char>, Seq<char>)>
    decreases s.len(),
{
    if s.len() == 0 {
        None
    } else if s[0] == '\n' {
        Some((Seq::<char>::empty(), s.skip(1)))
    } else {
        match sp_line(s.skip(1)) {
            Some(lr) => Some((seq![s[0]] + lr.0, lr.1)),
            None => None,
        }
    }
}

/// The text up to the first closing quote, and the text after it; fails on a
/// newline or on running out of input.
pub open spec fn sp_quoted(s: Seq<char>) -> Option<(Seq<char>, Seq<char>)>
    decreases s.len(),
{
    if s.len() == 0 {
        None
    } else if s[0] == '"' {
        Some((Seq::<char>::empty(), s.skip(1)))
    } else if s[0] == '\n' {
        None
    } else {
        match sp_quoted(s.skip(1)) {
            Some(vr) => Some((seq![s[0]] + vr.0, vr.1)),
            None => None,
        }
    }
}

/// The longest digit prefix of `s`, and the rest.
pub open spec fn sp_digits(s: Seq<char>) -> (Seq<char>, Seq<char>)
    decreases s.len(),
{
    if s.len() > 0 && is_digit(s[0]) {
        let dr = sp_digits(s.skip(1));
        (seq![s[0]] + dr.0, dr.1)
    } else {
        (Seq::<char>::empty(), s)
    }
}

/// Parse an unsigned decimal number: at least one digit.
pub open spec fn sp_posint(s: Seq<char>) -> Option<(int, Seq<char>)> {
    let dr = sp_digits(s);
    if dr.0.len() == 0 {
        None
    } else {
        Some((digits_val(dr.0), dr.1))
    }
}

/// Parse a decimal integer with an optional leading minus sign.
pub open spec fn sp_int(s: Seq<char>) -> Option<(int, Seq<char>)> {
    if s.len() > 0 && s[0] == '-' {
        match sp_posint(s.skip(1)) {
            Some(nr) => Some((-nr.0, nr.1)),
            None => None,
        }
    } else {
        sp_posint(s)
    }
}

// ---------------------------------------------------------------------------
// Inversion lemmas: parsing printed text recovers the printed value
// ---------------------------------------------------------------------------
pub proof fn lemma_sp_lit(lit: Seq<char>, t: Seq<char>)
    ensures
        sp_lit(lit + t, lit) == Some(t),
{
    assert((lit + t).take(lit.len() as int) =~= lit);
    assert((lit + t).skip(lit.len() as int) =~= t);
}

pub proof fn lemma_sp_line(l: Seq<char>, t: Seq<char>)
    requires
        no_nl(l),
    ensures
        sp_line(l + seq!['\n'] + t) == Some((l, t)),
    decreases l.len(),
{
    let s = l + seq!['\n'] + t;
    if l.len() == 0 {
        assert(s =~= seq!['\n'] + t);
        assert(s[0] == '\n');
        assert(s.skip(1) =~= t);
        assert(l =~= Seq::<char>::empty());
    } else {
        assert(s[0] == l[0]);
        assert(s.skip(1) =~= l.skip(1) + seq!['\n'] + t);
        lemma_sp_line(l.skip(1), t);
        assert(seq![s[0]] + l.skip(1) =~= l);
    }
}

/// A successful line split decomposes the input exactly.
pub proof fn lemma_sp_line_len(s: Seq<char>)
    ensures
        sp_line(s) matches Some(lr) ==> {
            &&& no_nl(lr.0)
            &&& lr.0.len() + 1 + lr.1.len() == s.len()
            &&& s == lr.0 + seq!['\n'] + lr.1
        },
    decreases s.len(),
{
    if s.len() > 0 && s[0] != '\n' {
        lemma_sp_line_len(s.skip(1));
        if sp_line(s) is Some {
            let lr0 = sp_line(s.skip(1))->Some_0;
            assert(s.skip(1) == lr0.0 + seq!['\n'] + lr0.1);
            assert(s =~= seq![s[0]] + s.skip(1));
            assert(s =~= (seq![s[0]] + lr0.0) + seq!['\n'] + lr0.1);
        }
    } else if s.len() > 0 {
        assert(s =~= Seq::<char>::empty() + seq!['\n'] + s.skip(1));
    }
}

pub proof fn lemma_sp_line_none(s: Seq<char>)
    ensures
        sp_line(s) is None <==> no_nl(s),
    decreases s.len(),
{
    if s.len() > 0 {
        lemma_sp_line_none(s.skip(1));
        if s[0] != '\n' && no_nl(s.skip(1)) {
            assert forall|i: int| 0 <= i < s.len() implies s[i] != '\n' by {
                if i > 0 {
                    assert(s.skip(1)[i - 1] != '\n');
                }
            }
        }
        if no_nl(s) {
            assert forall|i: int| 0 <= i < s.skip(1).len() implies s.skip(1)[i] != '\n' by {
                assert(s[i + 1] != '\n');
            }
        }
    }
}

pub proof fn lemma_sp_quoted(v: Seq<char>, t: Seq<char>)
    requires
        qsafe(v),
    ensures
        sp_quoted(v + seq!['"'] + t) == Some((v, t)),
    decreases v.len(),
{
    let s = v + seq!['"'] + t;
    if v.len() == 0 {
        assert(s =~= seq!['"'] + t);
        assert(s[0] == '"');
        assert(s.skip(1) =~= t);
        assert(v =~= Seq::<char>::empty());
    } else {
        assert(s[0] == v[0]);
        assert(s.skip(1) =~= v.skip(1) + seq!['"'] + t);
        lemma_sp_quoted(v.skip(1), t);
        assert(seq![s[0]] + v.skip(1) =~= v);
    }
}

pub proof fn lemma_sp_quoted_none_end(p: Seq<char>)
    requires
        qsafe(p),
    ensures
        sp_quoted(p) is None,
    decreases p.len(),
{
    if p.len() > 0 {
        lemma_sp_quoted_none_end(p.skip(1));
    }
}

pub proof fn lemma_sp_quoted_none_nl(p: Seq<char>, t: Seq<char>)
    requires
        qsafe(p),
    ensures
        sp_quoted(p + seq!['\n'] + t) is None,
    decreases p.len(),
{
    let s = p + seq!['\n'] + t;
    if p.len() == 0 {
        assert(s =~= seq!['\n'] + t);
    } else {
        assert(s[0] == p[0]);
        assert(s.skip(1) =~= p.skip(1) + seq!['\n'] + t);
        lemma_sp_quoted_none_nl(p.skip(1), t);
    }
}

pub proof fn lemma_sp_digits_split(d: Seq<char>, t: Seq<char>)
    requires
        forall|i: int| 0 <= i < d.len() ==> is_digit(#[trigger] d[i]),
        t.len() == 0 || !is_digit(t[0]),
    ensures
        sp_digits(d + t) == (d, t),
    decreases d.len(),
{
    let s = d + t;
    if d.len() == 0 {
        assert(s =~= t);
        assert(d =~= Seq::<char>::empty());
    } else {
        assert(s[0] == d[0]);
        assert(s.skip(1) =~= d.skip(1) + t);
        lemma_sp_digits_split(d.skip(1), t);
        assert(seq![s[0]] + d.skip(1) =~= d);
    }
}

/// Parsing the decimal text of `n` consumes exactly that text and yields `n`,
/// provided the following text does not begin with another digit.
pub proof fn lemma_sp_int_inversion(n: int, t: Seq<char>)
    requires
        t.len() == 0 || !is_digit(t[0]),
    ensures
        sp_int(int_chars(n) + t) == Some((n, t)),
{
    if n >= 0 {
        let d = dec_digits(n as nat);
        lemma_dec_digits_digits(n as nat);
        lemma_digits_val_dec_digits(n as nat);
        lemma_sp_digits_split(d, t);
        assert((d + t)[0] == d[0]);
        assert(is_digit(d[0]));
    } else {
        let d = dec_digits((-n) as nat);
        let s = int_chars(n) + t;
        assert(s =~= seq!['-'] + (d + t));
        assert(s[0] == '-');
        assert(s.skip(1) =~= d + t);
        lemma_dec_digits_digits((-n) as nat);
        lemma_digits_val_dec_digits((-n) as nat);
        lemma_sp_digits_split(d, t);
    }
}

pub proof fn lemma_sp_digits_len(s: Seq<char>)
    ensures
        sp_digits(s).0.len() + sp_digits(s).1.len() == s.len(),
    decreases s.len(),
{
    if s.len() > 0 && is_digit(s[0]) {
        lemma_sp_digits_len(s.skip(1));
    }
}

/// A successful integer parse consumes at least one character.
pub proof fn lemma_sp_int_len(s: Seq<char>)
    ensures
        sp_int(s) matches Some(nr) ==> nr.1.len() < s.len(),
{
    lemma_sp_digits_len(s);
    if s.len() > 0 && s[0] == '-' {
        lemma_sp_digits_len(s.skip(1));
    }
}

/// A successful quoted-value parse decomposes the input exactly.
pub proof fn lemma_sp_quoted_len(s: Seq<char>)
    ensures
        sp_quoted(s) matches Some(vr) ==> {
            &&& qsafe(vr.0)
            &&& vr.0.len() + 1 + vr.1.len() == s.len()
            &&& s == vr.0 + seq!['"'] + vr.1
        },
    decreases s.len(),
{
    if s.len() > 0 && s[0] != '"' && s[0] != '\n' {
        lemma_sp_quoted_len(s.skip(1));
        if sp_quoted(s) is Some {
            let vr0 = sp_quoted(s.skip(1))->Some_0;
            assert(s.skip(1) == vr0.0 + seq!['"'] + vr0.1);
            assert(s =~= seq![s[0]] + s.skip(1));
            assert(s =~= (seq![s[0]] + vr0.0) + seq!['"'] + vr0.1);
        }
    } else if s.len() > 0 && s[0] == '"' {
        assert(s =~= Seq::<char>::empty() + seq!['"'] + s.skip(1));
    }
}

// ---------------------------------------------------------------------------
// Lines of a text block
// ---------------------------------------------------------------------------
/// Split a text into its lines at each newline; a text with `k` newlines has
/// `k + 1` lines.
pub open spec fn split_lines(p: Seq<char>) -> Seq<Seq<char>>
    decreases p.len(),
{
    if p.len() == 0 {
        seq![Seq::<char>::empty()]
    } else if p[0] == '\n' {
        seq![Seq::<char>::empty()] + split_lines(p.skip(1))
    } else {
        let r = split_lines(p.skip(1));
        seq![seq![p[0]] + r[0]] + r.skip(1)
    }
}

/// Join lines with a newline between each adjacent pair.
pub open spec fn join_lines(ls: Seq<Seq<char>>) -> Seq<char>
    decreases ls.len(),
{
    if ls.len() == 0 {
        Seq::<char>::empty()
    } else if ls.len() == 1 {
        ls[0]
    } else {
        ls[0] + seq!['\n'] + join_lines(ls.skip(1))
    }
}

pub proof fn lemma_split_lines_len(p: Seq<char>)
    ensures
        split_lines(p).len() >= 1,
    decreases p.len(),
{
    if p.len() > 0 {
        lemma_split_lines_len(p.skip(1));
    }
}

/// Joining the lines of a text reproduces the text.
pub proof fn lemma_join_split(p: Seq<char>)
    ensures
        join_lines(split_lines(p)) == p,
    decreases p.len(),
{
    if p.len() == 0 {
        assert(join_lines(split_lines(p)) =~= p);
    } else if p[0] == '\n' {
        lemma_join_split(p.skip(1));
        lemma_split_lines_len(p.skip(1));
        let ls = seq![Seq::<char>::empty()] + split_lines(p.skip(1));
        assert(ls.skip(1) =~= split_lines(p.skip(1)));
        assert(join_lines(ls) =~= p);
    } else {
        lemma_join_split(p.skip(1));
        lemma_split_lines_len(p.skip(1));
        let r = split_lines(p.skip(1));
        let ls = seq![seq![p[0]] + r[0]] + r.skip(1);
        assert(split_lines(p) == ls);
        if r.len() == 1 {
            assert(join_lines(r) == r[0]);
            assert(r[0] == p.skip(1));
            assert(ls.len() == 1);
            assert(join_lines(ls) == ls[0]);
            assert(ls[0] == seq![p[0]] + r[0]);
            assert(join_lines(ls) =~= p);
        } else {
            assert(ls.skip(1) =~= r.skip(1));
            assert(ls.len() == r.len());
            assert(join_lines(r) == r[0] + seq!['\n'] + join_lines(r.skip(1)));
            assert(join_lines(ls) == ls[0] + seq!['\n'] + join_lines(ls.skip(1)));
            assert(join_lines(ls.skip(1)) == join_lines(r.skip(1)));
            assert(ls[0] == seq![p[0]] + r[0]);
            assert(r[0] + seq!['\n'] + join_lines(r.skip(1)) == p.skip(1));
            assert(join_lines(ls) =~= seq![p[0]] + p.skip(1));
            assert(seq![p[0]] + p.skip(1) =~= p);
        }
    }
}

/// Splitting after a first newline-free line takes that line off the front.
pub proof fn lemma_split_lines_cons(l: Seq<char>, rest: Seq<char>)
    requires
        no_nl(l),
    ensures
        split_lines(l + seq!['\n'] + rest) == seq![l] + split_lines(rest),
    decreases l.len(),
{
    let p = l + seq!['\n'] + rest;
    if l.len() == 0 {
        assert(p =~= seq!['\n'] + rest);
        assert(p[0] == '\n');
        assert(p.skip(1) =~= rest);
        assert(l =~= Seq::<char>::empty());
        assert(seq![Seq::<char>::empty()] + split_lines(rest) =~= seq![l] + split_lines(rest));
    } else {
        assert(p[0] == l[0]);
        assert(p.skip(1) =~= l.skip(1) + seq!['\n'] + rest);
        lemma_split_lines_cons(l.skip(1), rest);
        lemma_split_lines_len(rest);
        let r = seq![l.skip(1)] + split_lines(rest);
        assert(r[0] == l.skip(1));
        assert(seq![p[0]] + r[0] =~= l);
        assert(r.skip(1) =~= split_lines(rest));
        assert(seq![seq![p[0]] + r[0]] + r.skip(1) =~= seq![l] + split_lines(rest));
    }
}

/// Every line of a split is newline-free.
pub proof fn lemma_split_lines_no_nl(p: Seq<char>)
    ensures
        forall|i: int|
            0 <= i < split_lines(p).len() ==> no_nl(#[trigger] split_lines(p)[i]),
    decreases p.len(),
{
    if p.len() > 0 {
        lemma_split_lines_no_nl(p.skip(1));
        if p[0] == '\n' {
            let r = split_lines(p.skip(1));
            assert forall|i: int|
                0 <= i < split_lines(p).len() implies no_nl(#[trigger] split_lines(p)[i]) by {
                if i > 0 {
                    assert(split_lines(p)[i] == r[i - 1]);
                    assert(no_nl(split_lines(p.skip(1))[i - 1]));
                }
            }
        } else {
            let r = split_lines(p.skip(1));
            lemma_split_lines_len(p.skip(1));
            assert forall|i: int|
                0 <= i < split_lines(p).len() implies no_nl(#[trigger] split_lines(p)[i]) by {
                if i == 0 {
                    assert(no_nl(r[0]));
                    let l0 = seq![p[0]] + r[0];
                    assert forall|q: int| 0 <= q < l0.len() implies l0[q] != '\n' by {
                        if q > 0 {
                            assert(r[0][q - 1] != '\n');
                        }
                    }
                    assert(split_lines(p)[0] == l0);
                } else {
                    assert(split_lines(p)[i] == r[i]);
                    assert(no_nl(split_lines(p.skip(1))[i]));
                }
            }
        }
    }
}

/// Joining after appending one more line appends a newline and that line.
pub proof fn lemma_join_lines_snoc(ls: Seq<Seq<char>>, l: Seq<char>)
    ensures
        join_lines(ls.push(l)) == if ls.len() == 0 {
            l
        } else {
            join_lines(ls) + seq!['\n'] + l
        },
    decreases ls.len(),
{
    if ls.len() == 0 {
        assert(ls.push(l).len() == 1);
        assert(ls.push(l)[0] == l);
    } else {
        assert(ls.push(l).len() >= 2);
        assert(ls.push(l)[0] == ls[0]);
        assert(ls.push(l).skip(1) =~= ls.skip(1).push(l));
        lemma_join_lines_snoc(ls.skip(1), l);
        if ls.len() == 1 {
            assert(ls.skip(1).len() == 0);
            assert(join_lines(ls) == ls[0]);
        }
    }
}

/// The lines of a newline-free text are just that text.
pub proof fn lemma_split_lines_single(p: Seq<char>)
    requires
        no_nl(p),
    ensures
        split_lines(p) == seq![p],
    decreases p.len(),
{
    if p.len() == 0 {
        assert(p =~= Seq::<char>::empty());
        assert(split_lines(p) =~= seq![p]);
    } else {
        assert forall|i: int| 0 <= i < p.skip(1).len() implies p.skip(1)[i] != '\n' by {
            assert(p[i + 1] != '\n');
        }
        lemma_split_lines_single(p.skip(1));
        let r = split_lines(p.skip(1));
        assert(r[0] == p.skip(1));
        assert(seq![p[0]] + r[0] =~= p);
        assert(r.skip(1) =~= Seq::<Seq<char>>::empty());
        assert(split_lines(p) =~= seq![p]);
    }
}

// ---------------------------------------------------------------------------
// Executable printing
// ---------------------------------------------------------------------------
fn digit_to_char(d: u64) -> (c: char)
    requires
        d < 10,
    ensures
        c == digit_char(d as int),
{
    if d == 0 {
        '0'
    } else if d == 1 {
        '1'
    } else if d == 2 {
        '2'
    } else if d == 3 {
        '3'
    } else if d == 4 {
        '4'
    } else if d == 5 {
        '5'
    } else if d == 6 {
        '6'
    } else if d == 7 {
        '7'
    } else if d == 8 {
        '8'
    } else {
        '9'
    }
}

/// Append the decimal digits of `n`.
pub fn push_dec_u64(out: &mut Vec<char>, n: u64)
    ensures
        final(out)@ == old(out)@ + dec_digits(n as nat),
    decreases n,
{
    if n < 10 {
        let c = digit_to_char(n);
        out.push(c);
        assert(out@ =~= old(out)@ + dec_digits(n as nat));
    } else {
        push_dec_u64(out, n / 10);
        let c = digit_to_char(n % 10);
        out.push(c);
        assert(out@ =~= old(out)@ + dec_digits(n as nat));
    }
}

/// Append the decimal text of `n`: a minus sign for negatives, then digits.
pub fn push_dec_i64(out: &mut Vec<char>, n: i64)
    ensures
        final(out)@ == old(out)@ + int_chars(n as int),
{
    if n < 0 {
        out.push('-');
        let mag: u64 = if n == i64::MIN {
            9223372036854775808u64
        } else {
            (-n) as u64
        };
        assert(mag as int == -(n as int));
        push_dec_u64(out, mag);
        assert(out@ =~= old(out)@ + int_chars(n as int));
    } else {
        push_dec_u64(out, n as u64);
    }
}

/// Append every character of `s`.
pub fn push_str_chars(out: &mut Vec<char>, s: &str)
    ensures
        final(out)@ == old(out)@ + s@,
{
    let n = s.unicode_len();
    let mut q: usize = 0;
    while q < n
        invariant
            q <= n,
            n == s@.len(),
            out@ == old(out)@ + s@.take(q as int),
        decreases n - q,
    {
        let c = s.get_char(q);
        out.push(c);
        assert(out@ =~= old(out)@ + s@.take(q as int + 1));
        q += 1;
    }
    assert(out@ =~= old(out)@ + s@);
}

/// The characters of `s`, as a vector.
pub fn str_to_chars(s: &str) -> (v: Vec<char>)
    ensures
        v@ == s@,
{
    let n = s.unicode_len();
    let mut v: Vec<char> = Vec::new();
    let mut q: usize = 0;
    while q < n
        invariant
            q <= n,
            n == s@.len(),
            v@ == s@.take(q as int),
        decreases n - q,
    {
        let c = s.get_char(q);
        v.push(c);
        assert(v@ =~= s@.take(q as int + 1));
        q += 1;
    }
    assert(v@ =~= s@);
    v
}

/// Copy the characters in `lo..hi` out of `s`.
pub fn copy_range(s: &Vec<char>, lo: usize, hi: usize) -> (v: Vec<char>)
    requires
        lo <= hi <= s@.len(),
    ensures
        v@ == s@.subrange(lo as int, hi as int),
{
    let mut v: Vec<char> = Vec::new();
    let mut q = lo;
    while q < hi
        invariant
            lo <= q <= hi <= s@.len(),
            v@ == s@.subrange(lo as int, q as int),
        decreases hi - q,
    {
        v.push(s[q]);
        assert(v@ =~= s@.subrange(lo as int, q as int + 1));
        q += 1;
    }
    v
}

/// Relies on `String`'s `FromIterator<char>` implementation: collecting an
/// iterator of characters yields the string of exactly those characters, in
/// order.
#[verifier::external_body]
pub fn chars_to_string(v: &Vec<char>) -> (s: String)
    ensures
        s@ == v@,
{
    v.iter().collect()
}

// ---------------------------------------------------------------------------
// Executable scanning
// ---------------------------------------------------------------------------
/// Decide [`is_digit`].
pub fn is_digit_char(c: char) -> (b: bool)
    ensures
        b == is_digit(c),
{
    let u = c as u32;
    48 <= u && u <= 57
}

/// Find the end of the current line: the next newline at or after `i`.
pub fn find_line_end(s: &Vec<char>, i: usize) -> (r: Option<usize>)
    requires
        i <= s@.len(),
    ensures
        match r {
            Some(j) => {
                &&& i <= j < s@.len()
                &&& s@[j as int] == '\n'
                &&& no_nl(s@.subrange(i as int, j as int))
                &&& sp_line(s@.skip(i as int)) == Some(
                    (s@.subrange(i as int, j as int), s@.skip(j as int + 1)),
                )
            },
            None => sp_line(s@.skip(i as int)) is None && no_nl(s@.skip(i as int)),
        },
{
    let len = s.len();
    let mut k = i;
    while k < len && s[k] != '\n'
        invariant
            i <= k <= len,
            len == s@.len(),
            forall|q: int| i <= q < k ==> s@[q] != '\n',
        decreases len - k,
    {
        k += 1;
    }
    if k == len {
        proof {
            assert forall|q: int| 0 <= q < s@.skip(i as int).len() implies s@.skip(i as int)[q]
                != '\n' by {
                assert(s@[i + q] != '\n');
            }
            lemma_sp_line_none(s@.skip(i as int));
        }
        None
    } else {
        proof {
            let l = s@.subrange(i as int, k as int);
            assert forall|q: int| 0 <= q < l.len() implies l[q] != '\n' by {
                assert(s@[i + q] != '\n');
            }
            assert(s@.skip(i as int) =~= l + seq!['\n'] + s@.skip(k as int + 1));
            lemma_sp_line(l, s@.skip(k as int + 1));
        }
        Some(k)
    }
}

/// Match the exact literal `lit` at position `i`.
pub fn match_lit(s: &Vec<char>, i: usize, lit: &str) -> (r: Option<usize>)
    requires
        i <= s@.len(),
    ensures
        match r {
            Some(j) => {
                &&& i <= j <= s@.len()
                &&& j - i == lit@.len()
                &&& sp_lit(s@.skip(i as int), lit@) == Some(s@.skip(j as int))
            },
            None => sp_lit(s@.skip(i as int), lit@) is None,
        },
{
    let n = lit.unicode_len();
    let len = s.len();
    if n > len - i {
        proof {
            assert(s@.skip(i as int).len() < lit@.len());
        }
        return None;
    }
    let mut q: usize = 0;
    while q < n
        invariant
            q <= n,
            n == lit@.len(),
            len == s@.len(),
            i + n <= len,
            forall|p: int| 0 <= p < q ==> s@[i + p] == lit@[p],
        decreases n - q,
    {
        if s[i + q] != lit.get_char(q) {
            proof {
                let su = s@.skip(i as int);
                if su.take(n as int) == lit@ {
                    assert(su.take(n as int)[q as int] == lit@[q as int]);
                    assert(su[q as int] == s@[i + q]);
                }
            }
            return None;
        }
        q += 1;
    }
    proof {
        let su = s@.skip(i as int);
        assert(su.take(n as int) =~= lit@);
        assert(su.skip(n as int) =~= s@.skip(i as int + n as int));
    }
    Some(i + n)
}

/// Whether the characters `v` spell exactly the literal `lit`.
pub fn chars_eq_lit(v: &Vec<char>, lit: &str) -> (b: bool)
    ensures
        b == (v@ == lit@),
{
    let n = lit.unicode_len();
    if v.len() != n {
        proof {
            if v@ == lit@ {
                assert(v@.len() == lit@.len());
            }
        }
        return false;
    }
    let mut q: usize = 0;
    while q < n
        invariant
            q <= n,
            n == lit@.len() == v@.len(),
            forall|p: int| 0 <= p < q ==> v@[p] == lit@[p],
        decreases n - q,
    {
        if v[q] != lit.get_char(q) {
            proof {
                if v@ == lit@ {
                    assert(v@[q as int] == lit@[q as int]);
                }
            }
            return false;
        }
        q += 1;
    }
    proof {
        assert(v@ =~= lit@);
    }
    true
}

/// Read a quoted value: the characters up to the next closing quote.  Fails
/// on a newline or on running out of input first.
pub fn read_quoted(s: &Vec<char>, i: usize) -> (r: Option<(Vec<char>, usize)>)
    requires
        i <= s@.len(),
    ensures
        match r {
            Some(vj) => {
                &&& i <= vj.1 <= s@.len()
                &&& qsafe(vj.0@)
                &&& sp_quoted(s@.skip(i as int)) == Some((vj.0@, s@.skip(vj.1 as int)))
            },
            None => sp_quoted(s@.skip(i as int)) is None,
        },
{
    let len = s.len();
    let mut k = i;
    while k < len && s[k] != '"' && s[k] != '\n'
        invariant
            i <= k <= len,
            len == s@.len(),
            forall|q: int| i <= q < k ==> s@[q] != '"' && s@[q] != '\n',
        decreases len - k,
    {
        k += 1;
    }
    proof {
        let pre = s@.subrange(i as int, k as int);
        assert forall|q: int| 0 <= q < pre.len() implies pre[q] != '"' && pre[q] != '\n' by {
            assert(s@[i + q] != '"' && s@[i + q] != '\n');
        }
    }
    if k == len {
        proof {
            assert(s@.skip(i as int) =~= s@.subrange(i as int, k as int));
            lemma_sp_quoted_none_end(s@.subrange(i as int, k as int));
        }
        return None;
    }
    if s[k] == '\n' {
        proof {
            assert(s@.skip(i as int) =~= s@.subrange(i as int, k as int) + seq!['\n'] + s@.skip(
                k as int + 1,
            ));
            lemma_sp_quoted_none_nl(s@.subrange(i as int, k as int), s@.skip(k as int + 1));
        }
        return None;
    }
    let mut v: Vec<char> = Vec::new();
    let mut q = i;
    while q < k
        invariant
            i <= q <= k <= s@.len(),
            v@ == s@.subrange(i as int, q as int),
        decreases k - q,
    {
        v.push(s[q]);
        assert(v@ =~= s@.subrange(i as int, q as int + 1));
        q += 1;
    }
    proof {
        assert(s@.skip(i as int) =~= s@.subrange(i as int, k as int) + seq!['"'] + s@.skip(
            k as int + 1,
        ));
        lemma_sp_quoted(s@.subrange(i as int, k as int), s@.skip(k as int + 1));
    }
    Some((v, k + 1))
}

/// Result of reading a decimal integer from the input.
pub enum IntParse {
    /// The value, and the position after its last digit.
    Value(i64, usize),
    /// A number stands here, but it does not fit in an `i64`.
    OutOfRange,
    /// No digits stand here.
    NoDigits,
}

/// Read a decimal integer (optional minus sign, then digits) at position
/// `i`, exactly as the spec-level [`sp_int`] does, with an exact range
/// check against `i64`.
pub fn read_int(s: &Vec<char>, i: usize) -> (r: IntParse)
    requires
        i <= s@.len(),
    ensures
        match r {
            IntParse::Value(v, j) => {
                &&& i <= j <= s@.len()
                &&& sp_int(s@.skip(i as int)) == Some((v as int, s@.skip(j as int)))
            },
            IntParse::OutOfRange => {
                &&& sp_int(s@.skip(i as int)) is Some
                &&& !in_i64(sp_int(s@.skip(i as int))->Some_0.0)
            },
            IntParse::NoDigits => sp_int(s@.skip(i as int)) is None,
        },
{
    let len = s.len();
    let mut k = i;
    let mut neg = false;
    if k < len && s[k] == '-' {
        neg = true;
        k += 1;
    }
    let dstart = k;
    let mut acc: u128 = 0;
    let mut over = false;
    while k < len && is_digit_char(s[k])
        invariant
            i <= dstart <= k <= len,
            len == s@.len(),
            forall|q: int| dstart <= q < k ==> is_digit(#[trigger] s@[q]),
            !over ==> acc == digits_val(s@.subrange(dstart as int, k as int)) && acc
                <= u64::MAX as u128,
            over ==> digits_val(s@.subrange(dstart as int, k as int)) > u64::MAX,
        decreases len - k,
    {
        let c = s[k];
        let dgt = (c as u32 - 48) as u128;
        proof {
            let dcur = s@.subrange(dstart as int, k as int);
            let dnext = s@.subrange(dstart as int, k as int + 1);
            assert(dnext.drop_last() =~= dcur);
            assert(dnext.last() == s@[k as int]);
            assert(digits_val(dnext) == digits_val(dcur) * 10 + digit_val(s@[k as int]));
            assert(dgt as int == digit_val(s@[k as int]));
        }
        if !over {
            acc = acc * 10 + dgt;
            if acc > u64::MAX as u128 {
                over = true;
            }
        } else {
            proof {
                let dcur = s@.subrange(dstart as int, k as int);
                assert(digits_val(dcur) * 10 + digit_val(s@[k as int]) > u64::MAX);
            }
        }
        k += 1;
    }
    let ghost d = s@.subrange(dstart as int, k as int);
    let ghost rest = s@.skip(k as int);
    if k == dstart {
        // No digits: the spec parse fails too.
        proof {
            assert(d =~= Seq::<char>::empty());
            assert(s@.skip(dstart as int) =~= d + s@.skip(k as int));
            lemma_sp_digits_split(d, s@.skip(k as int));
            if neg {
                assert(s@.skip(i as int)[0] == '-');
                assert(s@.skip(i as int).skip(1) =~= s@.skip(dstart as int));
            } else {
                if s@.skip(i as int).len() > 0 {
                    assert(s@.skip(i as int)[0] == s@[i as int]);
                }
                assert(s@.skip(i as int) =~= s@.skip(dstart as int));
            }
        }
        return IntParse::NoDigits;
    }
    proof {
        assert(s@.skip(dstart as int) =~= d + rest);
        if k < len {
            assert(rest[0] == s@[k as int]);
        }
        lemma_sp_digits_split(d, rest);
        lemma_digits_val_nonneg(d);
        if neg {
            assert(s@.skip(i as int)[0] == '-');
            assert(s@.skip(i as int).skip(1) =~= s@.skip(dstart as int));
            assert(sp_int(s@.skip(i as int)) == Some((-digits_val(d), rest)));
        } else {
            assert(s@.skip(i as int) =~= s@.skip(dstart as int));
            assert(d[0] == s@[dstart as int]);
            assert(is_digit(d[0]));
            assert(sp_int(s@.skip(i as int)) == Some((digits_val(d), rest)));
        }
    }
    if over {
        return IntParse::OutOfRange;
    }
    let mag: u64 = acc as u64;
    assert(mag as int == digits_val(d));
    if neg {
        if mag > 9223372036854775808u64 {
            IntParse::OutOfRange
        } else if mag == 9223372036854775808u64 {
            IntParse::Value(i64::MIN, k)
        } else {
            IntParse::Value(-(mag as i64), k)
        }
    } else {
        if mag > 9223372036854775807u64 {
            IntParse::OutOfRange
        } else {
            IntParse::Value(mag as i64, k)
        }
    }
}

} // verus!
