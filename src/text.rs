//! Text folding for search: accents and case are set aside, so that a
//! query matches however a name was typed.

use vstd::prelude::*;

verus! {

/// What `str::to_lowercase` makes of a text.
pub uninterp spec fn lower_of(s: Seq<char>) -> Seq<char>;

/// Relies on `str::to_lowercase`: the lower-case form of a text, which
/// depends on its characters alone; the empty text stays empty.
#[verifier::external_body]
pub(crate) fn lowercase(s: &str) -> (r: String)
    ensures
        r@ == lower_of(s@),
        s@.len() == 0 ==> r@.len() == 0,
{
    s.to_lowercase()
}

/// Relies on `String::push`: appends one character.
#[verifier::external_body]
pub(crate) fn push_char(s: &mut String, c: char)
    ensures
        final(s)@ == old(s)@.push(c),
{
    s.push(c)
}

/// The unaccented letter of an accented Latin letter, keeping its case;
/// every other character is kept.
pub open spec fn fold_accent(c: char) -> char {
    match c {
        'à' | 'á' | 'â' | 'ã' | 'ä' | 'å' => 'a',
        'è' | 'é' | 'ê' | 'ë' => 'e',
        'ì' | 'í' | 'î' | 'ï' => 'i',
        'ò' | 'ó' | 'ô' | 'õ' | 'ö' => 'o',
        'ù' | 'ú' | 'û' | 'ü' => 'u',
        'ñ' => 'n',
        'ç' => 'c',
        'À' | 'Á' | 'Â' | 'Ã' | 'Ä' | 'Å' => 'A',
        'È' | 'É' | 'Ê' | 'Ë' => 'E',
        'Ì' | 'Í' | 'Î' | 'Ï' => 'I',
        'Ò' | 'Ó' | 'Ô' | 'Õ' | 'Ö' => 'O',
        'Ù' | 'Ú' | 'Û' | 'Ü' => 'U',
        'Ñ' => 'N',
        'Ç' => 'C',
        _ => c,
    }
}

pub open spec fn strip_accents(s: Seq<char>) -> Seq<char> {
    s.map_values(|c: char| fold_accent(c))
}

/// The search form of a text: accents stripped, then lower-cased.
pub open spec fn normalized(s: Seq<char>) -> Seq<char> {
    lower_of(strip_accents(s))
}

/// `needle` occurs in `hay` as a run of consecutive characters.
pub open spec fn occurs_in(needle: Seq<char>, hay: Seq<char>) -> bool {
    exists|i: int|
        0 <= i && i + needle.len() <= hay.len() && #[trigger] hay.subrange(i, i + needle.len())
            == needle
}

fn fold_accent_char(c: char) -> (r: char)
    ensures
        r == fold_accent(c),
{
    match c {
        'à' | 'á' | 'â' | 'ã' | 'ä' | 'å' => 'a',
        'è' | 'é' | 'ê' | 'ë' => 'e',
        'ì' | 'í' | 'î' | 'ï' => 'i',
        'ò' | 'ó' | 'ô' | 'õ' | 'ö' => 'o',
        'ù' | 'ú' | 'û' | 'ü' => 'u',
        'ñ' => 'n',
        'ç' => 'c',
        'À' | 'Á' | 'Â' | 'Ã' | 'Ä' | 'Å' => 'A',
        'È' | 'É' | 'Ê' | 'Ë' => 'E',
        'Ì' | 'Í' | 'Î' | 'Ï' => 'I',
        'Ò' | 'Ó' | 'Ô' | 'Õ' | 'Ö' => 'O',
        'Ù' | 'Ú' | 'Û' | 'Ü' => 'U',
        'Ñ' => 'N',
        'Ç' => 'C',
        _ => c,
    }
}

/// The search form of `s`: each accented Latin letter replaced by its plain
/// letter, then the whole text lower-cased.
pub fn normalize(s: &str) -> (r: String)
    ensures
        r@ == normalized(s@),
{
    let n = s.unicode_len();
    let mut plain = String::new();
    let mut i: usize = 0;
    while i < n
        invariant
            i <= n == s@.len(),
            plain@ == strip_accents(s@.subrange(0, i as int)),
        decreases n - i,
    {
        let c = s.get_char(i);
        push_char(&mut plain, fold_accent_char(c));
        assert(strip_accents(s@.subrange(0, i + 1)) =~= strip_accents(s@.subrange(0, i as int)).push(
            fold_accent(c),
        ));
        i = i + 1;
    }
    assert(s@.subrange(0, n as int) =~= s@);
    lowercase(plain.as_str())
}

/// The characters of `s`, one by one.
pub fn chars_of(s: &str) -> (r: Vec<char>)
    ensures
        r@ == s@,
{
    let n = s.unicode_len();
    let mut r: Vec<char> = Vec::new();
    let mut i: usize = 0;
    while i < n
        invariant
            i <= n == s@.len(),
            r@ == s@.subrange(0, i as int),
        decreases n - i,
    {
        r.push(s.get_char(i));
        i = i + 1;
    }
    assert(r@ =~= s@);
    r
}

/// Whether `needle` occurs in `hay` as a run of consecutive characters.
pub fn occurs(needle: &Vec<char>, hay: &Vec<char>) -> (r: bool)
    ensures
        r == occurs_in(needle@, hay@),
{
    let m = needle.len();
    let n = hay.len();
    if m > n {
        return false;
    }
    let mut i: usize = 0;
    while i <= n - m
        invariant
            m <= n,
            n == hay@.len(),
            m == needle@.len(),
            forall|k: int| 0 <= k < i ==> #[trigger] hay@.subrange(k, k + m) != needle@,
        decreases n - m + 1 - i,
    {
        let mut j: usize = 0;
        while j < m && hay[i + j] == needle[j]
            invariant
                j <= m,
                i + m <= n,
                n == hay@.len(),
                m == needle@.len(),
                forall|t: int| 0 <= t < j ==> hay@[i + t] == needle@[t],
            decreases m - j,
        {
            j = j + 1;
        }
        if j == m {
            assert(hay@.subrange(i as int, i + m) =~= needle@);
            return true;
        }
        assert(hay@.subrange(i as int, i + m)[j as int] != needle@[j as int]);
        i = i + 1;
    }
    false
}

/// The decimal digit of `d`, for `0 <= d < 10`.
pub open spec fn digit_char(d: int) -> char {
    seq!['0', '1', '2', '3', '4', '5', '6', '7', '8', '9'][d]
}

/// The decimal digits of `n`, most significant first, without leading zeros.
pub open spec fn digits(n: nat) -> Seq<char>
    decreases n,
{
    if n < 10 {
        seq![digit_char(n as int)]
    } else {
        digits(n / 10).push(digit_char(n as int % 10))
    }
}

/// The decimal form of `n`, with a minus sign when it is negative.
pub open spec fn decimal(n: int) -> Seq<char> {
    if n < 0 {
        seq!['-'] + digits((-n) as nat)
    } else {
        digits(n as nat)
    }
}

fn digit(d: u128) -> (c: char)
    requires
        d < 10,
    ensures
        c == digit_char(d as int),
{
    let table = ['0', '1', '2', '3', '4', '5', '6', '7', '8', '9'];
    let c = table[d as usize];
    assert(table@ =~= seq!['0', '1', '2', '3', '4', '5', '6', '7', '8', '9']);
    c
}

fn push_digits(s: &mut String, m: u128)
    ensures
        final(s)@ == old(s)@ + digits(m as nat),
    decreases m,
{
    if m >= 10 {
        push_digits(s, m / 10);
    }
    push_char(s, digit(m % 10));
    assert(s@ =~= old(s)@ + digits(m as nat)) by {
        if m < 10 {
            assert(m % 10 == m);
        }
    }
}

/// The decimal form of `n`, as `i128::to_string` writes it.
pub fn decimal_string(n: i128) -> (r: String)
    ensures
        r@ == decimal(n as int),
{
    let mut r = String::new();
    if n < 0 {
        push_char(&mut r, '-');
        push_digits(&mut r, (-(n + 1)) as u128 + 1);
    } else {
        push_digits(&mut r, n as u128);
    }
    assert(r@ =~= decimal(n as int));
    r
}

/// Whether `a` and `b` hold the same characters.
pub fn same_text(a: &str, b: &str) -> (r: bool)
    ensures
        r == (a@ == b@),
{
    let n = a.unicode_len();
    if n != b.unicode_len() {
        return false;
    }
    let r = starts_with_text(a, b);
    assert(a@.subrange(0, n as int) =~= a@);
    r
}

/// Whether `s` begins with `prefix`.
pub fn starts_with_text(s: &str, prefix: &str) -> (r: bool)
    ensures
        r == (prefix@.len() <= s@.len() && s@.subrange(0, prefix@.len() as int) == prefix@),
{
    let n = s.unicode_len();
    let m = prefix.unicode_len();
    if m > n {
        return false;
    }
    let mut i: usize = 0;
    while i < m
        invariant
            m <= n,
            n == s@.len(),
            m == prefix@.len(),
            i <= m,
            forall|k: int| 0 <= k < i ==> s@[k] == prefix@[k],
        decreases m - i,
    {
        if s.get_char(i) != prefix.get_char(i) {
            assert(s@.subrange(0, m as int)[i as int] != prefix@[i as int]);
            return false;
        }
        i = i + 1;
    }
    assert(s@.subrange(0, m as int) =~= prefix@);
    true
}

pub open spec fn is_ascii_digit(c: char) -> bool {
    '0' <= c && c <= '9'
}

pub open spec fn all_digits(s: Seq<char>) -> bool {
    forall|i: int| 0 <= i < s.len() ==> is_ascii_digit(#[trigger] s[i])
}

/// The number that a run of decimal digits writes.
pub open spec fn digits_value(s: Seq<char>) -> int
    decreases s.len(),
{
    if s.len() == 0 {
        0
    } else {
        digits_value(s.drop_last()) * 10 + (s.last() as u32 - '0' as u32)
    }
}

/// What `str::parse::<i16>` reads from `s`: an optional sign and at least
/// one decimal digit, nothing else, within the range of `i16`.
pub open spec fn is_negative(s: Seq<char>) -> bool {
    s.len() > 0 && s[0] == '-'
}

/// `s` without its leading sign, if it has one.
pub open spec fn unsigned_part(s: Seq<char>) -> Seq<char> {
    if s.len() > 0 && (s[0] == '-' || s[0] == '+') {
        s.drop_first()
    } else {
        s
    }
}

pub open spec fn signed_value(s: Seq<char>) -> int {
    if is_negative(s) {
        -digits_value(unsigned_part(s))
    } else {
        digits_value(unsigned_part(s))
    }
}

pub open spec fn parsed_i16(s: Seq<char>) -> Option<i16> {
    if unsigned_part(s).len() > 0 && all_digits(unsigned_part(s)) && i16::MIN <= signed_value(s)
        <= i16::MAX {
        Some(signed_value(s) as i16)
    } else {
        None
    }
}

proof fn lemma_digits_value_grows(s: Seq<char>, n: int)
    requires
        0 <= n <= s.len(),
        all_digits(s),
    ensures
        digits_value(s) >= digits_value(s.subrange(0, n)) >= 0,
    decreases s.len(),
{
    if s.len() > 0 {
        if n == s.len() {
            assert(s.subrange(0, n) =~= s);
            lemma_digits_value_grows(s.drop_last(), n - 1);
        } else {
            assert(s.drop_last().subrange(0, n) =~= s.subrange(0, n));
            lemma_digits_value_grows(s.drop_last(), n);
        }
    }
}

/// Reads a whole number of `i16`'s range from `s`, as `str::parse::<i16>`
/// does: an optional `+` or `-`, then decimal digits only.
pub fn parse_i16(s: &str) -> (r: Option<i16>)
    ensures
        r == parsed_i16(s@),
{
    let n = s.unicode_len();
    let negative = n > 0 && s.get_char(0) == '-';
    let start: usize = if n > 0 && (s.get_char(0) == '-' || s.get_char(0) == '+') {
        1
    } else {
        0
    };
    let ghost body = s@.subrange(start as int, n as int);
    assert(body =~= unsigned_part(s@));
    if start == n {
        return None;
    }
    let mut value: i32 = 0;
    let mut i: usize = start;
    while i < n
        invariant
            start <= i <= n == s@.len(),
            body == s@.subrange(start as int, n as int),
            body == unsigned_part(s@),
            negative == is_negative(s@),
            all_digits(s@.subrange(start as int, i as int)),
            value == digits_value(s@.subrange(start as int, i as int)),
            0 <= value <= 32768,
        decreases n - i,
    {
        let c = s.get_char(i);
        let ghost prefix = s@.subrange(start as int, i + 1);
        assert(prefix.drop_last() =~= s@.subrange(start as int, i as int));
        assert(prefix.last() == c);
        if !('0' <= c && c <= '9') {
            assert(body[i - start] == c);
            assert(!all_digits(body));
            return None;
        }
        let next = value * 10 + (c as u32 - '0' as u32) as i32;
        assert(digits_value(prefix) == next);
        assert(all_digits(prefix)) by {
            assert forall|k: int| 0 <= k < prefix.len() implies is_ascii_digit(#[trigger] prefix[k]) by {
                if k < prefix.len() - 1 {
                    assert(prefix[k] == s@.subrange(start as int, i as int)[k]);
                }
            }
        }
        if next > 32768 {
            proof {
                if all_digits(body) {
                    assert(body.subrange(0, i + 1 - start) =~= prefix);
                    lemma_digits_value_grows(body, i + 1 - start);
                    assert(digits_value(body) > 32768);
                }
            }
            return None;
        }
        value = next;
        i = i + 1;
    }
    assert(s@.subrange(start as int, n as int) == body);
    if negative {
        Some((-value) as i16)
    } else if value <= 32767 {
        Some(value as i16)
    } else {
        None
    }
}

} // verus!
