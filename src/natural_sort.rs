//! Sort keys that order names the way people read them: runs of digits
//! compare by magnitude ("Group 2" before "Group 10"), other runs compare
//! without regard to case.

use crate::text::{all_digits, digits_value, is_ascii_digit, lower_of, lowercase, push_char};
use core::cmp::Ordering;
use vstd::prelude::*;

verus! {

/// Width to which a run of digits is padded with leading zeros.
pub const DIGIT_WIDTH: usize = 10;

/// One run of a name: digits, zero-padded, or other characters, lower-cased.
#[derive(Clone, Debug)]
pub enum SortToken {
    Numeric(String),
    Text(String),
}

/// What a token holds, as values.
pub enum TokenView {
    Numeric(Seq<char>),
    Text(Seq<char>),
}

impl View for SortToken {
    type V = TokenView;

    open spec fn view(&self) -> TokenView {
        match self {
            SortToken::Numeric(s) => TokenView::Numeric(s@),
            SortToken::Text(s) => TokenView::Text(s@),
        }
    }
}

/// The maximal runs of `s` whose characters are all digits or all
/// non-digits, in order.
pub open spec fn runs(s: Seq<char>) -> Seq<Seq<char>>
    decreases s.len(),
{
    if s.len() == 0 {
        Seq::empty()
    } else {
        let prev = runs(s.drop_last());
        let c = s.last();
        if prev.len() > 0 && is_ascii_digit(prev.last().last()) == is_ascii_digit(c) {
            prev.update(prev.len() - 1, prev.last().push(c))
        } else {
            prev.push(seq![c])
        }
    }
}

/// `s` preceded by as many zeros as bring it to `width` characters.
pub open spec fn pad_zeros(s: Seq<char>, width: nat) -> Seq<char> {
    if s.len() >= width {
        s
    } else {
        Seq::new((width - s.len()) as nat, |i: int| '0') + s
    }
}

/// The token of a run of digits.
pub open spec fn token_of_digits(run: Seq<char>) -> TokenView {
    TokenView::Numeric(pad_zeros(run, DIGIT_WIDTH as nat))
}

pub open spec fn token_of(run: Seq<char>) -> TokenView {
    if is_ascii_digit(run[0]) {
        token_of_digits(run)
    } else {
        TokenView::Text(lower_of(run))
    }
}

/// The natural sort key of a name: one token per run.
pub open spec fn natural_key(s: Seq<char>) -> Seq<TokenView> {
    runs(s).map_values(|r: Seq<char>| token_of(r))
}

pub open spec fn views_of(v: Seq<SortToken>) -> Seq<TokenView> {
    v.map_values(|t: SortToken| t@)
}

/// Character order (by code point) extended to texts, shorter prefix first.
pub open spec fn text_cmp(a: Seq<char>, b: Seq<char>) -> int
    decreases a.len(),
{
    if a.len() == 0 {
        if b.len() == 0 {
            0
        } else {
            -1
        }
    } else if b.len() == 0 {
        1
    } else if (a[0] as u32) < (b[0] as u32) {
        -1
    } else if (a[0] as u32) > (b[0] as u32) {
        1
    } else {
        text_cmp(a.drop_first(), b.drop_first())
    }
}

/// Tokens of one kind compare by their text; a numeric token comes before
/// a text token.
pub open spec fn token_cmp(x: TokenView, y: TokenView) -> int {
    match (x, y) {
        (TokenView::Numeric(a), TokenView::Numeric(b)) => text_cmp(a, b),
        (TokenView::Text(a), TokenView::Text(b)) => text_cmp(a, b),
        (TokenView::Numeric(_), TokenView::Text(_)) => -1,
        (TokenView::Text(_), TokenView::Numeric(_)) => 1,
    }
}

/// Keys compare token by token; a key that is a prefix of another comes first.
pub open spec fn key_cmp(a: Seq<TokenView>, b: Seq<TokenView>) -> int
    decreases a.len(),
{
    if a.len() == 0 {
        if b.len() == 0 {
            0
        } else {
            -1
        }
    } else if b.len() == 0 {
        1
    } else if token_cmp(a[0], b[0]) != 0 {
        token_cmp(a[0], b[0])
    } else {
        key_cmp(a.drop_first(), b.drop_first())
    }
}

pub open spec fn ordering_of(c: int) -> Ordering {
    if c < 0 {
        Ordering::Less
    } else if c == 0 {
        Ordering::Equal
    } else {
        Ordering::Greater
    }
}

fn is_digit_char(c: char) -> (r: bool)
    ensures
        r == is_ascii_digit(c),
{
    '0' <= c && c <= '9'
}

fn pad_digits(run: &String) -> (r: String)
    ensures
        r@ == pad_zeros(run@, DIGIT_WIDTH as nat),
{
    let n = run.as_str().unicode_len();
    if n >= DIGIT_WIDTH {
        return run.clone();
    }
    let mut r = String::new();
    let mut i: usize = 0;
    while i < DIGIT_WIDTH - n
        invariant
            n < DIGIT_WIDTH,
            i <= DIGIT_WIDTH - n,
            r@ == Seq::new(i as nat, |k: int| '0'),
        decreases DIGIT_WIDTH - n - i,
    {
        push_char(&mut r, '0');
        assert(r@ =~= Seq::new((i + 1) as nat, |k: int| '0'));
        i = i + 1;
    }
    r.append(run.as_str());
    r
}

fn close_run(run: &String, digits: bool) -> (t: SortToken)
    requires
        run@.len() > 0,
        is_ascii_digit(run@[0]) == digits,
    ensures
        t@ == token_of(run@),
{
    if digits {
        SortToken::Numeric(pad_digits(run))
    } else {
        SortToken::Text(lowercase(run.as_str()))
    }
}

/// The natural sort key of `s`: its maximal runs of ASCII digits and of
/// other characters, in order; each digit run padded with zeros to ten
/// characters, each other run lower-cased.
pub fn sort_key(s: &str) -> (r: Vec<SortToken>)
    ensures
        views_of(r@) == natural_key(s@),
{
    let n = s.unicode_len();
    let mut result: Vec<SortToken> = Vec::new();
    let mut current = String::new();
    let mut digits = false;
    let ghost mut closed: Seq<Seq<char>> = Seq::empty();
    let mut i: usize = 0;
    while i < n
        invariant
            i <= n == s@.len(),
            (current@.len() == 0) == (i == 0),
            i == 0 ==> closed.len() == 0,
            i > 0 ==> runs(s@.subrange(0, i as int)) == closed.push(current@),
            forall|t: int| 0 <= t < current@.len() ==> is_ascii_digit(#[trigger] current@[t]) == digits,
            views_of(result@) == closed.map_values(|r: Seq<char>| token_of(r)),
        decreases n - i,
    {
        let c = s.get_char(i);
        let c_digit = is_digit_char(c);
        let ghost prefix = s@.subrange(0, i as int);
        assert(s@.subrange(0, i + 1).drop_last() =~= prefix);
        assert(s@.subrange(0, i + 1).last() == c);
        if i == 0 {
            digits = c_digit;
            push_char(&mut current, c);
            assert(prefix.len() == 0);
            assert(runs(prefix) =~= Seq::<Seq<char>>::empty());
            assert(closed =~= Seq::<Seq<char>>::empty());
            assert(current@ =~= seq![c]);
            assert(runs(s@.subrange(0, 1)) =~= closed.push(current@));
        } else if digits == c_digit {
            let ghost old_current = current@;
            push_char(&mut current, c);
            assert(old_current.last() == old_current[old_current.len() - 1]);
            assert(runs(s@.subrange(0, i + 1)) =~= closed.push(current@));
        } else {
            proof {
                assert(current@[0] == current@[0]);
            }
            let tok = close_run(&current, digits);
            let ghost old_current = current@;
            let ghost old_result = result@;
            let ghost old_closed = closed;
            let ghost tv = tok@;
            result.push(tok);
            proof {
                assert(old_current.last() == old_current[old_current.len() - 1]);
                closed = closed.push(old_current);
                assert(views_of(result@) =~= views_of(old_result).push(tv));
                assert(closed.map_values(|r: Seq<char>| token_of(r)) =~= old_closed.map_values(
                    |r: Seq<char>| token_of(r),
                ).push(token_of(old_current)));
            }
            current = String::new();
            push_char(&mut current, c);
            assert(current@ =~= seq![c]);
            digits = c_digit;
            assert(runs(s@.subrange(0, i + 1)) =~= closed.push(current@));
        }
        i = i + 1;
    }
    assert(s@.subrange(0, n as int) =~= s@);
    if n > 0 {
        assert(current@[0] == current@[0]);
        let tok = close_run(&current, digits);
        let ghost old_result = result@;
        let ghost old_closed = closed;
        let ghost tv = tok@;
        result.push(tok);
        proof {
            closed = closed.push(current@);
            assert(views_of(result@) =~= views_of(old_result).push(tv));
            assert(closed.map_values(|r: Seq<char>| token_of(r)) =~= old_closed.map_values(
                |r: Seq<char>| token_of(r),
            ).push(token_of(current@)));
        }
    } else {
        assert(views_of(result@) =~= natural_key(s@));
    }
    result
}

/// Compares two texts character by character, a prefix first.
pub fn text_compare(a: &String, b: &String) -> (r: Ordering)
    ensures
        r == ordering_of(text_cmp(a@, b@)),
{
    let x = a.as_str();
    let y = b.as_str();
    let n = x.unicode_len();
    let m = y.unicode_len();
    let mut i: usize = 0;
    assert(a@.subrange(0, n as int) =~= a@);
    assert(b@.subrange(0, m as int) =~= b@);
    while i < n && i < m && x.get_char(i) == y.get_char(i)
        invariant
            i <= n == a@.len(),
            i <= m == b@.len(),
            x@ == a@,
            y@ == b@,
            text_cmp(a@, b@) == text_cmp(a@.subrange(i as int, n as int), b@.subrange(
                i as int,
                m as int,
            )),
        decreases n - i,
    {
        let ghost sa = a@.subrange(i as int, n as int);
        let ghost sb = b@.subrange(i as int, m as int);
        assert(sa.drop_first() =~= a@.subrange(i + 1, n as int));
        assert(sb.drop_first() =~= b@.subrange(i + 1, m as int));
        i = i + 1;
    }
    let ghost sa = a@.subrange(i as int, n as int);
    let ghost sb = b@.subrange(i as int, m as int);
    if i == n {
        if i == m {
            Ordering::Equal
        } else {
            Ordering::Less
        }
    } else if i == m {
        Ordering::Greater
    } else {
        let p = x.get_char(i);
        let q = y.get_char(i);
        assert(sa[0] == p && sb[0] == q);
        if (p as u32) < (q as u32) {
            Ordering::Less
        } else {
            Ordering::Greater
        }
    }
}

fn token_compare(x: &SortToken, y: &SortToken) -> (r: Ordering)
    ensures
        r == ordering_of(token_cmp(x@, y@)),
{
    match (x, y) {
        (SortToken::Numeric(a), SortToken::Numeric(b)) => text_compare(a, b),
        (SortToken::Text(a), SortToken::Text(b)) => text_compare(a, b),
        (SortToken::Numeric(_), SortToken::Text(_)) => Ordering::Less,
        (SortToken::Text(_), SortToken::Numeric(_)) => Ordering::Greater,
    }
}

/// Compares two natural sort keys token by token.
pub fn compare_keys(a: &Vec<SortToken>, b: &Vec<SortToken>) -> (r: Ordering)
    ensures
        r == ordering_of(key_cmp(views_of(a@), views_of(b@))),
{
    let n = a.len();
    let m = b.len();
    let ghost va = views_of(a@);
    let ghost vb = views_of(b@);
    let mut i: usize = 0;
    assert(va.subrange(0, n as int) =~= va);
    assert(vb.subrange(0, m as int) =~= vb);
    while i < n && i < m
        invariant
            i <= n == a@.len() == va.len(),
            i <= m == b@.len() == vb.len(),
            va == views_of(a@),
            vb == views_of(b@),
            key_cmp(va, vb) == key_cmp(va.subrange(i as int, n as int), vb.subrange(
                i as int,
                m as int,
            )),
        decreases n - i,
    {
        let ghost sa = va.subrange(i as int, n as int);
        let ghost sb = vb.subrange(i as int, m as int);
        assert(sa[0] == a@[i as int]@ && sb[0] == b@[i as int]@);
        let c = token_compare(&a[i], &b[i]);
        match c {
            Ordering::Equal => {},
            _ => {
                return c;
            },
        }
        assert(sa.drop_first() =~= va.subrange(i + 1, n as int));
        assert(sb.drop_first() =~= vb.subrange(i + 1, m as int));
        i = i + 1;
    }
    if i == n {
        if i == m {
            Ordering::Equal
        } else {
            Ordering::Less
        }
    } else {
        Ordering::Greater
    }
}

pub open spec fn pow10(n: nat) -> int
    decreases n,
{
    if n == 0 {
        1
    } else {
        10 * pow10((n - 1) as nat)
    }
}

proof fn lemma_pow10_positive(n: nat)
    ensures
        pow10(n) >= 1,
    decreases n,
{
    if n > 0 {
        lemma_pow10_positive((n - 1) as nat);
    }
}

proof fn lemma_value_concat(x: Seq<char>, y: Seq<char>)
    ensures
        digits_value(x + y) == digits_value(x) * pow10(y.len()) + digits_value(y),
    decreases y.len(),
{
    if y.len() == 0 {
        assert(x + y =~= x);
    } else {
        let y0 = y.drop_last();
        assert((x + y).drop_last() =~= x + y0);
        assert((x + y).last() == y.last());
        lemma_value_concat(x, y0);
        let vx = digits_value(x);
        let p0 = pow10(y0.len());
        assert((vx * p0 + digits_value(y0)) * 10 == vx * (10 * p0) + digits_value(y0) * 10)
            by (nonlinear_arith);
    }
}

proof fn lemma_value_bounds(s: Seq<char>)
    requires
        all_digits(s),
    ensures
        0 <= digits_value(s) < pow10(s.len()),
    decreases s.len(),
{
    if s.len() > 0 {
        let t = s.drop_last();
        assert(all_digits(t)) by {
            assert forall|i: int| 0 <= i < t.len() implies is_ascii_digit(#[trigger] t[i]) by {
                assert(t[i] == s[i]);
            }
        }
        assert(is_ascii_digit(s[s.len() - 1]));
        lemma_value_bounds(t);
    }
}

proof fn lemma_zeros_value(n: nat)
    ensures
        digits_value(Seq::new(n, |i: int| '0')) == 0,
    decreases n,
{
    if n > 0 {
        assert(Seq::new(n, |i: int| '0').drop_last() =~= Seq::new((n - 1) as nat, |i: int| '0'));
        lemma_zeros_value((n - 1) as nat);
    }
}

/// Digit runs of one length compare as the numbers they write.
proof fn lemma_same_length_runs(x: Seq<char>, y: Seq<char>)
    requires
        x.len() == y.len(),
        all_digits(x),
        all_digits(y),
    ensures
        (text_cmp(x, y) < 0) == (digits_value(x) < digits_value(y)),
        (text_cmp(x, y) == 0) == (digits_value(x) == digits_value(y)),
    decreases x.len(),
{
    if x.len() > 0 {
        let n = x.len();
        let xs = x.drop_first();
        let ys = y.drop_first();
        assert(all_digits(xs)) by {
            assert forall|i: int| 0 <= i < xs.len() implies is_ascii_digit(#[trigger] xs[i]) by {
                assert(xs[i] == x[i + 1]);
            }
        }
        assert(all_digits(ys)) by {
            assert forall|i: int| 0 <= i < ys.len() implies is_ascii_digit(#[trigger] ys[i]) by {
                assert(ys[i] == y[i + 1]);
            }
        }
        assert(x =~= seq![x[0]] + xs);
        assert(y =~= seq![y[0]] + ys);
        lemma_value_concat(seq![x[0]], xs);
        lemma_value_concat(seq![y[0]], ys);
        assert(seq![x[0]].drop_last() =~= Seq::<char>::empty());
        assert(seq![y[0]].drop_last() =~= Seq::<char>::empty());
        lemma_value_bounds(xs);
        lemma_value_bounds(ys);
        lemma_same_length_runs(xs, ys);
        assert(is_ascii_digit(x[0]) && is_ascii_digit(y[0]));
        let dx = x[0] as u32 - '0' as u32;
        let dy = y[0] as u32 - '0' as u32;
        let p = pow10(xs.len());
        assert(digits_value(Seq::<char>::empty()) == 0);
        assert(seq![x[0]].last() == x[0] && seq![y[0]].last() == y[0]);
        assert(digits_value(seq![x[0]]) == dx);
        assert(digits_value(seq![y[0]]) == dy);
        if dx < dy {
            assert(dx * p + p <= dy * p) by (nonlinear_arith)
                requires
                    dx < dy,
                    p >= 1,
            ;
        } else if dy < dx {
            assert(dy * p + p <= dx * p) by (nonlinear_arith)
                requires
                    dy < dx,
                    p >= 1,
            ;
        }
    }
}

/// Numeric tokens compare by magnitude: two runs of at most ten digits,
/// padded to ten, come in the order of the numbers they write, and tie
/// exactly when those numbers are equal ("2" before "10").
pub proof fn lemma_numeric_tokens_by_magnitude(a: Seq<char>, b: Seq<char>)
    requires
        a.len() <= DIGIT_WIDTH,
        b.len() <= DIGIT_WIDTH,
        all_digits(a),
        all_digits(b),
    ensures
        (token_cmp(token_of_digits(a), token_of_digits(b)) < 0) == (digits_value(a) < digits_value(b)),
        (token_cmp(token_of_digits(a), token_of_digits(b)) == 0) == (digits_value(a)
            == digits_value(b)),
{
    let w = DIGIT_WIDTH as nat;
    let pa = pad_zeros(a, w);
    let pb = pad_zeros(b, w);
    let za = Seq::new((w - a.len()) as nat, |i: int| '0');
    let zb = Seq::new((w - b.len()) as nat, |i: int| '0');
    if a.len() < w {
        lemma_value_concat(za, a);
        lemma_zeros_value((w - a.len()) as nat);
        assert(pa == za + a);
    } else {
        assert(pa == a);
    }
    if b.len() < w {
        lemma_value_concat(zb, b);
        lemma_zeros_value((w - b.len()) as nat);
        assert(pb == zb + b);
    } else {
        assert(pb == b);
    }
    assert(all_digits(pa)) by {
        assert forall|i: int| 0 <= i < pa.len() implies is_ascii_digit(#[trigger] pa[i]) by {
            if a.len() < w && i < za.len() {
                assert(pa[i] == za[i]);
            } else if a.len() < w {
                assert(pa[i] == a[i - za.len()]);
            }
        }
    }
    assert(all_digits(pb)) by {
        assert forall|i: int| 0 <= i < pb.len() implies is_ascii_digit(#[trigger] pb[i]) by {
            if b.len() < w && i < zb.len() {
                assert(pb[i] == zb[i]);
            } else if b.len() < w {
                assert(pb[i] == b[i - zb.len()]);
            }
        }
    }
    lemma_same_length_runs(pa, pb);
}

} // verus!
