use vstd::prelude::*;
use vstd::std_specs::cmp::PartialEqSpecImpl;
use super::{Location, location_at, line_at, column_at, lemma_location_bounds, decimal, digit_char, decimal_string};

verus! {

/// The characters of a string, in order.
pub fn chars_of(s: &str) -> (v: Vec<char>)
    ensures
        v@ == s@,
{
    broadcast use vstd::string::group_string_axioms;

    let mut v: Vec<char> = Vec::new();
    for c in it: s.chars()
        invariant
            v@ == it.seq().take(it.index()),
            it.seq() == s@,
    {
        v.push(c);
    }
    v
}

/// Appends `c` to `s` with `String::push`, which std documents as appending
/// the given character to the end of the string.
#[verifier::external_body]
fn push_char(s: &mut String, c: char)
    ensures
        final(s)@ == old(s)@.push(c),
{
    s.push(c);
}

/// The characters `chars[start..end]` as a `String`.
pub(crate) fn string_from_chars(chars: &Vec<char>, start: usize, end: usize) -> (s: String)
    requires
        start <= end <= chars@.len(),
    ensures
        s@ == chars@.subrange(start as int, end as int),
{
    let mut s = String::new();
    let mut k: usize = start;
    while k < end
        invariant
            start <= k <= end,
            end <= chars@.len(),
            s@ == chars@.subrange(start as int, k as int),
        decreases end - k,
    {
        push_char(&mut s, chars[k]);
        k += 1;
        assert(s@ =~= chars@.subrange(start as int, k as int));
    }
    s
}

/// A string holding the one character `c`.
pub(crate) fn string_of_char(c: char) -> (s: String)
    ensures
        s@ == seq![c],
{
    let v = vec![c];
    let s = string_from_chars(&v, 0, 1);
    assert(v@.subrange(0, 1) =~= seq![c]);
    s
}

/// `a` followed by `b`.
pub(crate) fn concat(a: &str, b: &str) -> (s: String)
    ensures
        s@ == a@ + b@,
{
    let mut s = a.to_owned();
    s.append(b);
    s
}

/// The values a token can take. A number keeps its text as written.
#[derive(Debug)]
pub enum TokenValue {
    Identifier(String),
    Number(String),
    String(String),
    LeftBrace,
    RightBrace,
    LeftBracket,
    RightBracket,
    LeftParen,
    RightParen,
    Comma,
    Colon,
    Eof,
}

/// The mathematical content of a token value.
pub enum TokenModel {
    Identifier(Seq<char>),
    Number(Seq<char>),
    Str(Seq<char>),
    LeftBrace,
    RightBrace,
    LeftBracket,
    RightBracket,
    LeftParen,
    RightParen,
    Comma,
    Colon,
    Eof,
}

impl View for TokenValue {
    type V = TokenModel;

    open spec fn view(&self) -> TokenModel {
        match self {
            TokenValue::Identifier(s) => TokenModel::Identifier(s@),
            TokenValue::Number(s) => TokenModel::Number(s@),
            TokenValue::String(s) => TokenModel::Str(s@),
            TokenValue::LeftBrace => TokenModel::LeftBrace,
            TokenValue::RightBrace => TokenModel::RightBrace,
            TokenValue::LeftBracket => TokenModel::LeftBracket,
            TokenValue::RightBracket => TokenModel::RightBracket,
            TokenValue::LeftParen => TokenModel::LeftParen,
            TokenValue::RightParen => TokenModel::RightParen,
            TokenValue::Comma => TokenModel::Comma,
            TokenValue::Colon => TokenModel::Colon,
            TokenValue::Eof => TokenModel::Eof,
        }
    }
}

impl Clone for TokenValue {
    fn clone(&self) -> (r: Self)
        ensures
            r@ == self@,
    {
        match self {
            TokenValue::Identifier(s) => TokenValue::Identifier(s.clone()),
            TokenValue::Number(s) => TokenValue::Number(s.clone()),
            TokenValue::String(s) => TokenValue::String(s.clone()),
            TokenValue::LeftBrace => TokenValue::LeftBrace,
            TokenValue::RightBrace => TokenValue::RightBrace,
            TokenValue::LeftBracket => TokenValue::LeftBracket,
            TokenValue::RightBracket => TokenValue::RightBracket,
            TokenValue::LeftParen => TokenValue::LeftParen,
            TokenValue::RightParen => TokenValue::RightParen,
            TokenValue::Comma => TokenValue::Comma,
            TokenValue::Colon => TokenValue::Colon,
            TokenValue::Eof => TokenValue::Eof,
        }
    }
}

/// Whether two token values are of the same kind, whatever they hold.
pub open spec fn same_variant(a: TokenModel, b: TokenModel) -> bool {
    match (a, b) {
        (TokenModel::Identifier(_), TokenModel::Identifier(_)) => true,
        (TokenModel::Number(_), TokenModel::Number(_)) => true,
        (TokenModel::Str(_), TokenModel::Str(_)) => true,
        (TokenModel::LeftBrace, TokenModel::LeftBrace) => true,
        (TokenModel::RightBrace, TokenModel::RightBrace) => true,
        (TokenModel::LeftBracket, TokenModel::LeftBracket) => true,
        (TokenModel::RightBracket, TokenModel::RightBracket) => true,
        (TokenModel::LeftParen, TokenModel::LeftParen) => true,
        (TokenModel::RightParen, TokenModel::RightParen) => true,
        (TokenModel::Comma, TokenModel::Comma) => true,
        (TokenModel::Colon, TokenModel::Colon) => true,
        (TokenModel::Eof, TokenModel::Eof) => true,
        _ => false,
    }
}

/// The text of a number as written, normalised: without a `+` sign, without
/// leading zeros in the whole part (keeping one `0`), and without trailing
/// zeros in the fraction, nor the point when no fraction is left. For a
/// number with at most 15 significant digits this is also how the number
/// prints once read as a double; a longer one prints rounded to the nearest
/// double, which this text does not model.
pub open spec fn number_text(lexeme: Seq<char>) -> Seq<char> {
    let negative = lexeme.len() > 0 && lexeme[0] == '-';
    let body = if lexeme.len() > 0 && (lexeme[0] == '-' || lexeme[0] == '+') {
        lexeme.drop_first()
    } else {
        lexeme
    };
    let dot = point_index(body, 0);
    let whole = body.take(dot);
    let whole = whole.skip(leading_zeros_end(whole, 0));
    let whole = if whole.len() == 0 {
        seq!['0']
    } else {
        whole
    };
    let fraction = if dot < body.len() {
        body.skip(dot + 1)
    } else {
        Seq::empty()
    };
    let fraction = fraction.take(trailing_zeros_start(fraction, fraction.len() as int));
    (if negative {
        seq!['-']
    } else {
        Seq::empty()
    }) + whole + if fraction.len() > 0 {
        seq!['.'] + fraction
    } else {
        Seq::empty()
    }
}

/// The index of the first `.` in `s` at or after `i`, or `s.len()`.
pub open spec fn point_index(s: Seq<char>, i: int) -> int
    decreases s.len() - i,
{
    if i < 0 || i >= s.len() || s[i] == '.' {
        i
    } else {
        point_index(s, i + 1)
    }
}

/// The index of the first character of `s` at or after `i` that is not `0`.
pub open spec fn leading_zeros_end(s: Seq<char>, i: int) -> int
    decreases s.len() - i,
{
    if i < 0 || i >= s.len() || s[i] != '0' {
        i
    } else {
        leading_zeros_end(s, i + 1)
    }
}

/// The start of the run of `0`s that ends `s.take(j)`.
pub open spec fn trailing_zeros_start(s: Seq<char>, j: int) -> int
    decreases j,
{
    if j <= 0 || j > s.len() || s[j - 1] != '0' {
        j
    } else {
        trailing_zeros_start(s, j - 1)
    }
}

/// How a token value is shown in error messages.
pub open spec fn display(v: TokenModel) -> Seq<char> {
    match v {
        TokenModel::Identifier(s) => seq!['\''] + s + seq!['\''],
        TokenModel::Number(s) => seq!['\''] + number_text(s) + seq!['\''],
        TokenModel::Str(s) => seq!['\''] + s + seq!['\''],
        TokenModel::LeftBrace => seq!['\'', '{', '\''],
        TokenModel::RightBrace => seq!['\'', '}', '\''],
        TokenModel::LeftBracket => seq!['\'', '[', '\''],
        TokenModel::RightBracket => seq!['\'', ']', '\''],
        TokenModel::LeftParen => seq!['\'', '(', '\''],
        TokenModel::RightParen => seq!['\'', ')', '\''],
        TokenModel::Comma => seq!['\'', ',', '\''],
        TokenModel::Colon => seq!['\'', ':', '\''],
        TokenModel::Eof => seq!['E', 'O', 'F'],
    }
}

/// Copies `v[a..b]`.
fn sub_vec(v: &Vec<char>, a: usize, b: usize) -> (r: Vec<char>)
    requires
        a <= b <= v@.len(),
    ensures
        r@ == v@.subrange(a as int, b as int),
{
    let mut r: Vec<char> = Vec::new();
    let mut k = a;
    while k < b
        invariant
            a <= k <= b <= v@.len(),
            r@ == v@.subrange(a as int, k as int),
        decreases b - k,
    {
        r.push(v[k]);
        k += 1;
        assert(v@.subrange(a as int, k as int) =~= v@.subrange(a as int, k - 1) + seq![v@[k - 1]]);
    }
    r
}

/// Appends `v[a..b]` to `out`.
fn extend_from(out: &mut Vec<char>, v: &Vec<char>, a: usize, b: usize)
    requires
        a <= b <= v@.len(),
    ensures
        final(out)@ == old(out)@ + v@.subrange(a as int, b as int),
{
    let ghost start = out@;
    let mut k = a;
    while k < b
        invariant
            a <= k <= b <= v@.len(),
            out@ == start + v@.subrange(a as int, k as int),
        decreases b - k,
    {
        out.push(v[k]);
        k += 1;
        assert(v@.subrange(a as int, k as int) =~= v@.subrange(a as int, k - 1) + seq![v@[k - 1]]);
    }
}

fn find_point(v: &Vec<char>) -> (d: usize)
    ensures
        d == point_index(v@, 0),
        d <= v@.len(),
{
    let mut d: usize = 0;
    while d < v.len() && v[d] != '.'
        invariant
            d <= v@.len(),
            point_index(v@, 0) == point_index(v@, d as int),
        decreases v@.len() - d,
    {
        d += 1;
    }
    d
}

fn count_leading_zeros(v: &Vec<char>) -> (k: usize)
    ensures
        k == leading_zeros_end(v@, 0),
        k <= v@.len(),
{
    let mut k: usize = 0;
    while k < v.len() && v[k] == '0'
        invariant
            k <= v@.len(),
            leading_zeros_end(v@, 0) == leading_zeros_end(v@, k as int),
        decreases v@.len() - k,
    {
        k += 1;
    }
    k
}

fn trim_trailing_zeros(v: &Vec<char>) -> (k: usize)
    ensures
        k == trailing_zeros_start(v@, v@.len() as int),
        k <= v@.len(),
{
    let mut k: usize = v.len();
    while k > 0 && v[k - 1] == '0'
        invariant
            k <= v@.len(),
            trailing_zeros_start(v@, v@.len() as int) == trailing_zeros_start(v@, k as int),
        decreases k,
    {
        k -= 1;
    }
    k
}

/// Prints a number's text as `number_text` describes it.
pub(crate) fn number_text_of(lexeme: &String) -> (r: String)
    ensures
        r@ == number_text(lexeme@),
{
    let (negative, w, f) = number_digits(lexeme);
    let mut out: Vec<char> = Vec::new();
    if negative {
        out.push('-');
    }
    if w.len() == 0 {
        out.push('0');
    } else {
        extend_from(&mut out, &w, 0, w.len());
    }
    if f.len() > 0 {
        out.push('.');
        extend_from(&mut out, &f, 0, f.len());
    }
    let r = string_from_chars(&out, 0, out.len());
    proof {
        assert(w@.subrange(0, w@.len() as int) =~= w@);
        assert(f@.subrange(0, f@.len() as int) =~= f@);
        assert(out@.subrange(0, out@.len() as int) =~= out@);
        assert(r@ =~= number_text(lexeme@));
    }
    r
}

/// A number's text without its sign.
pub open spec fn number_body(lexeme: Seq<char>) -> Seq<char> {
    if lexeme.len() > 0 && (lexeme[0] == '-' || lexeme[0] == '+') {
        lexeme.drop_first()
    } else {
        lexeme
    }
}

/// The digits of a number before its point, without leading zeros (none for
/// a zero whole part).
pub open spec fn whole_digits(lexeme: Seq<char>) -> Seq<char> {
    let body = number_body(lexeme);
    let whole = body.take(point_index(body, 0));
    whole.skip(leading_zeros_end(whole, 0))
}

/// The digits of a number after its point, without trailing zeros.
pub open spec fn fraction_digits(lexeme: Seq<char>) -> Seq<char> {
    let body = number_body(lexeme);
    let dot = point_index(body, 0);
    let fraction = if dot < body.len() {
        body.skip(dot + 1)
    } else {
        Seq::empty()
    };
    fraction.take(trailing_zeros_start(fraction, fraction.len() as int))
}

/// The digits of `d` from its first non-zero digit to its last one.
pub open spec fn significant_digits(d: Seq<char>) -> Seq<char> {
    let d = d.skip(leading_zeros_end(d, 0));
    d.take(trailing_zeros_start(d, d.len() as int))
}

/// How a number prints with `{:?}` once read as a double: zero as `0.0`
/// (with its sign); a number of at least 1e-4 and below 1e16 in size as
/// `number_text` gives it, with `.0` when it has no fraction; any other
/// number in exponent form, as in `1.5e-7` or `1e16`. This holds for
/// numbers of at most 15 significant digits within the range of a double;
/// a longer one prints rounded to the nearest double, which is not modelled.
pub open spec fn debug_number_text(lexeme: Seq<char>) -> Seq<char> {
    let w = whole_digits(lexeme);
    let f = fraction_digits(lexeme);
    let sig = significant_digits(w + f);
    let sign = if lexeme.len() > 0 && lexeme[0] == '-' {
        seq!['-']
    } else {
        Seq::<char>::empty()
    };
    let e: int = if w.len() > 0 {
        w.len() - 1
    } else {
        -(leading_zeros_end(f, 0) + 1)
    };
    if sig.len() == 0 {
        sign + seq!['0', '.', '0']
    } else if -4 <= e < 16 {
        number_text(lexeme) + if f.len() == 0 {
            seq!['.', '0']
        } else {
            Seq::<char>::empty()
        }
    } else {
        sign + exponent_form(sig, e)
    }
}

/// Significant digits `sig` times ten to the power `e`, written in exponent
/// form, as in `1.5e-7`.
pub open spec fn exponent_form(sig: Seq<char>, e: int) -> Seq<char> {
    seq![sig[0]] + (if sig.len() > 1 {
        seq!['.'] + sig.skip(1)
    } else {
        Seq::<char>::empty()
    }) + seq!['e'] + (if e < 0 {
        seq!['-']
    } else {
        Seq::<char>::empty()
    }) + decimal((if e < 0 {
        -e
    } else {
        e
    }) as nat)
}

/// Writes `exponent_form(sig, e)`, where `e` is `exponent`, negated when
/// `below_one` holds.
fn exponent_text(sig: &Vec<char>, below_one: bool, exponent: usize) -> (r: String)
    requires
        sig@.len() > 0,
        below_one ==> exponent > 0,
    ensures
        r@ == exponent_form(sig@, if below_one {
            -exponent
        } else {
            exponent as int
        }),
{
    let mut out: Vec<char> = Vec::new();
    out.push(sig[0]);
    if sig.len() > 1 {
        out.push('.');
        extend_from(&mut out, &sig, 1, sig.len());
    }
    out.push('e');
    if below_one {
        out.push('-');
    }
    let head = string_from_chars(&out, 0, out.len());
    let tail = decimal_string(exponent);
    let r = concat(head.as_str(), tail.as_str());
    proof {
        assert(sig@.subrange(1, sig@.len() as int) =~= sig@.skip(1));
        assert(out@.subrange(0, out@.len() as int) =~= out@);
        let e: int = if below_one {
            -exponent
        } else {
            exponent as int
        };
        assert(r@ =~= exponent_form(sig@, e));
    }
    r
}

/// The character of the decimal digit `d`.
fn digit_of(d: u32) -> (c: char)
    requires
        d < 10,
    ensures
        c == digit_char(d as int),
{
    let digits = vec!['0', '1', '2', '3', '4', '5', '6', '7', '8', '9'];
    assert(digits@ == seq!['0', '1', '2', '3', '4', '5', '6', '7', '8', '9']);
    digits[d as usize]
}

/// The sign, the digits before the point without leading zeros, and the
/// digits after it without trailing zeros, of a number's text.
fn number_digits(lexeme: &String) -> (r: (bool, Vec<char>, Vec<char>))
    ensures
        r.0 == (lexeme@.len() > 0 && lexeme@[0] == '-'),
        r.1@ == whole_digits(lexeme@),
        r.2@ == fraction_digits(lexeme@),
{
    let chars = chars_of(lexeme.as_str());
    let len = chars.len();
    let negative = len > 0 && chars[0] == '-';
    let body_start: usize = if len > 0 && (chars[0] == '-' || chars[0] == '+') {
        1
    } else {
        0
    };
    let body = sub_vec(&chars, body_start, len);
    let dot = find_point(&body);
    let whole = sub_vec(&body, 0, dot);
    let lz = count_leading_zeros(&whole);
    let w = sub_vec(&whole, lz, whole.len());
    let fraction = if dot < body.len() {
        sub_vec(&body, dot + 1, body.len())
    } else {
        Vec::new()
    };
    let tz = trim_trailing_zeros(&fraction);
    let f = sub_vec(&fraction, 0, tz);
    proof {
        let b = number_body(lexeme@);
        assert(body@ =~= b);
        assert(whole@ =~= b.take(dot as int));
        assert(w@ =~= whole@.skip(lz as int));
        let fr = if dot < b.len() {
            b.skip(dot + 1)
        } else {
            Seq::<char>::empty()
        };
        assert(fraction@ =~= fr);
        assert(f@ =~= fraction@.take(tz as int));
    }
    (negative, w, f)
}

/// Prints a number's text as `debug_number_text` describes it.
pub(crate) fn debug_number_text_of(lexeme: &String) -> (r: String)
    ensures
        r@ == debug_number_text(lexeme@),
{
    let (negative, w, f) = number_digits(lexeme);
    let mut d: Vec<char> = Vec::new();
    extend_from(&mut d, &w, 0, w.len());
    extend_from(&mut d, &f, 0, f.len());
    let a = count_leading_zeros(&d);
    let rest = sub_vec(&d, a, d.len());
    let b = trim_trailing_zeros(&rest);
    let sig = sub_vec(&rest, 0, b);
    proof {
        assert(d@ =~= w@ + f@);
        assert(rest@ =~= d@.skip(a as int));
        assert(sig@ =~= rest@.take(b as int));
        assert(sig@ == significant_digits(w@ + f@));
    }
    let mut out: Vec<char> = Vec::new();
    if negative {
        out.push('-');
    }
    if sig.len() == 0 {
        out.push('0');
        out.push('.');
        out.push('0');
        let r = string_from_chars(&out, 0, out.len());
        assert(r@ =~= debug_number_text(lexeme@));
        return r;
    }
    let lzf = count_leading_zeros(&f);
    let in_decimal = if w.len() > 0 {
        w.len() - 1 < 16
    } else {
        lzf < 4
    };
    if in_decimal {
        let t = number_text_of(lexeme);
        if f.len() == 0 {
            let mut t = t;
            push_char(&mut t, '.');
            push_char(&mut t, '0');
            assert(t@ =~= debug_number_text(lexeme@));
            return t;
        }
        assert(t@ =~= debug_number_text(lexeme@));
        return t;
    }
    let below_one = w.len() == 0;
    let exponent: usize = if w.len() > 0 {
        w.len() - 1
    } else {
        proof {
            assert(d@ =~= f@);
        }
        lzf + 1
    };
    let tail = exponent_text(&sig, below_one, exponent);
    let r = concat(string_from_chars(&out, 0, out.len()).as_str(), tail.as_str());
    proof {
        assert(out@.subrange(0, out@.len() as int) =~= out@);
        assert(r@ =~= debug_number_text(lexeme@));
    }
    r
}

/// Whether a number's text is that of zero, with or without a sign.
pub open spec fn is_zero_text(lexeme: Seq<char>) -> bool {
    whole_digits(lexeme).len() == 0 && fraction_digits(lexeme).len() == 0
}

/// Whether two number texts stand for the same number: both are zero,
/// whatever their signs, or they have the same `number_text`. For numbers
/// of at most 15 significant digits this is how their doubles compare;
/// longer texts that round to the same double are not modelled.
pub open spec fn same_number(a: Seq<char>, b: Seq<char>) -> bool {
    (is_zero_text(a) && is_zero_text(b)) || number_text(a) == number_text(b)
}

/// Whether two number texts stand for the same number, as `same_number`
/// says.
pub(crate) fn numbers_equal(a: &String, b: &String) -> (r: bool)
    ensures
        r == same_number(a@, b@),
{
    let (_, wa, fa) = number_digits(a);
    let (_, wb, fb) = number_digits(b);
    if wa.len() == 0 && fa.len() == 0 && wb.len() == 0 && fb.len() == 0 {
        return true;
    }
    let ta = number_text_of(a);
    let tb = number_text_of(b);
    ta == tb
}

/// Whether two token values are equal: numbers compare as `same_number`
/// says, everything else by what it holds.
pub open spec fn token_value_equiv(a: TokenModel, b: TokenModel) -> bool {
    match (a, b) {
        (TokenModel::Number(x), TokenModel::Number(y)) => same_number(x, y),
        _ => a == b,
    }
}

impl PartialEq for TokenValue {
    fn eq(&self, other: &Self) -> (r: bool) {
        match (self, other) {
            (TokenValue::Identifier(a), TokenValue::Identifier(b)) => *a == *b,
            (TokenValue::Number(a), TokenValue::Number(b)) => numbers_equal(a, b),
            (TokenValue::String(a), TokenValue::String(b)) => *a == *b,
            (TokenValue::Identifier(_), _) => false,
            (TokenValue::Number(_), _) => false,
            (TokenValue::String(_), _) => false,
            _ => self.is_eq_variant(other),
        }
    }
}

impl PartialEqSpecImpl for TokenValue {
    open spec fn obeys_eq_spec() -> bool {
        true
    }

    open spec fn eq_spec(&self, other: &Self) -> bool {
        token_value_equiv(self@, other@)
    }
}

impl PartialEq for Token {
    fn eq(&self, other: &Self) -> (r: bool) {
        self.value == other.value && self.location.line == other.location.line && self.location.column
            == other.location.column
    }
}

impl PartialEqSpecImpl for Token {
    open spec fn obeys_eq_spec() -> bool {
        true
    }

    open spec fn eq_spec(&self, other: &Self) -> bool {
        token_value_equiv(self.value@, other.value@) && self.location == other.location
    }
}

/// The text that `char::escape_debug` gives for `c`.
pub uninterp spec fn char_escape_debug(c: char) -> Seq<char>;

/// Writes `c` as std's `char::escape_debug` escapes it, through the
/// escape's `Display`. Std documents the escape as the one that the `Debug`
/// output of `str` and `char` uses; which non-ASCII characters it escapes
/// rests on std's Unicode tables, so the text is only named here.
#[verifier::external_body]
fn escape_debug_text(c: char) -> (r: String)
    ensures
        r@ == char_escape_debug(c),
{
    format!("{}", c.escape_debug())
}

/// How a character is written inside a string printed with `{:?}`: as
/// `escaped_char_with` says, a non-ASCII character as `char::escape_debug`
/// writes it.
pub open spec fn escaped_char(c: char) -> Seq<char> {
    escaped_char_with(c, char_escape_debug(c))
}

/// How a character is written inside a string printed with `{:?}`, given
/// the escape `non_ascii` of a non-ASCII character: a backslash escape for
/// `\0`, tab, carriage return, newline, backslash and double quote,
/// `\u{..}` with its code in hex for the other ASCII control characters,
/// the character itself for the other ASCII characters, and `non_ascii`
/// for a non-ASCII character.
pub open spec fn escaped_char_with(c: char, non_ascii: Seq<char>) -> Seq<char> {
    if c == '\0' {
        seq!['\\', '0']
    } else if c == '\t' {
        seq!['\\', 't']
    } else if c == '\r' {
        seq!['\\', 'r']
    } else if c == '\n' {
        seq!['\\', 'n']
    } else if c == '\\' {
        seq!['\\', '\\']
    } else if c == '"' {
        seq!['\\', '"']
    } else if (c as u32) < 0x20 || (c as u32) == 0x7f {
        seq!['\\', 'u', '{'] + hex_text(c as u32 as nat) + seq!['}']
    } else if (c as u32) < 0x80 {
        seq![c]
    } else {
        non_ascii
    }
}

/// The character of the hex digit `d`, in lower case.
pub open spec fn hex_digit_char(d: nat) -> char {
    if d < 10 {
        digit_char(d as int)
    } else if d == 10 {
        'a'
    } else if d == 11 {
        'b'
    } else if d == 12 {
        'c'
    } else if d == 13 {
        'd'
    } else if d == 14 {
        'e'
    } else {
        'f'
    }
}

/// The hex digits of `n`, below 256, without leading zeros.
pub open spec fn hex_text(n: nat) -> Seq<char> {
    if n < 16 {
        seq![hex_digit_char(n)]
    } else {
        seq![hex_digit_char(n / 16), hex_digit_char(n % 16)]
    }
}

/// The characters of `s`, each written as `escaped_char` gives it.
pub open spec fn escaped(s: Seq<char>) -> Seq<char>
    decreases s.len(),
{
    if s.len() == 0 {
        Seq::empty()
    } else {
        escaped(s.drop_last()) + escaped_char(s.last())
    }
}

/// How a string prints with `{:?}`: in double quotes, its characters
/// escaped as `escaped_char` says.
pub open spec fn debug_str(s: Seq<char>) -> Seq<char> {
    seq!['"'] + escaped(s) + seq!['"']
}

/// The character of the hex digit `d`.
fn hex_digit_of(d: u32) -> (c: char)
    requires
        d < 16,
    ensures
        c == hex_digit_char(d as nat),
{
    if d < 10 {
        digit_of(d)
    } else if d == 10 {
        'a'
    } else if d == 11 {
        'b'
    } else if d == 12 {
        'c'
    } else if d == 13 {
        'd'
    } else if d == 14 {
        'e'
    } else {
        'f'
    }
}

/// Appends `c` to `out` as `escaped_char_with` writes it, with `non_ascii`
/// as the escape of a non-ASCII character.
pub fn push_escaped_with(out: &mut Vec<char>, c: char, non_ascii: &str)
    ensures
        final(out)@ == old(out)@ + escaped_char_with(c, non_ascii@),
{
    let code = c as u32;
    if c == '\0' {
        out.push('\\');
        out.push('0');
    } else if c == '\t' {
        out.push('\\');
        out.push('t');
    } else if c == '\r' {
        out.push('\\');
        out.push('r');
    } else if c == '\n' {
        out.push('\\');
        out.push('n');
    } else if c == '\\' {
        out.push('\\');
        out.push('\\');
    } else if c == '"' {
        out.push('\\');
        out.push('"');
    } else if code < 0x20 || code == 0x7f {
        out.push('\\');
        out.push('u');
        out.push('{');
        if code >= 16 {
            out.push(hex_digit_of(code / 16));
        }
        out.push(hex_digit_of(code % 16));
        out.push('}');
    } else if code < 0x80 {
        out.push(c);
    } else {
        let v = chars_of(non_ascii);
        extend_from(out, &v, 0, v.len());
        assert(v@.subrange(0, v@.len() as int) =~= v@);
    }
    assert(final(out)@ =~= old(out)@ + escaped_char_with(c, non_ascii@));
}

/// Appends `c` to `out` as `escaped_char` writes it.
fn push_escaped(out: &mut Vec<char>, c: char)
    ensures
        final(out)@ == old(out)@ + escaped_char(c),
{
    if (c as u32) < 0x80 {
        push_escaped_with(out, c, "");
    } else {
        let text = escape_debug_text(c);
        push_escaped_with(out, c, text.as_str());
    }
}

/// Prints a string as `debug_str` describes it.
pub(crate) fn debug_str_of(s: &str) -> (r: String)
    ensures
        r@ == debug_str(s@),
{
    let chars = chars_of(s);
    let mut out: Vec<char> = Vec::new();
    out.push('"');
    let mut k: usize = 0;
    while k < chars.len()
        invariant
            k <= chars@.len(),
            out@ == seq!['"'] + escaped(chars@.take(k as int)),
        decreases chars@.len() - k,
    {
        let ghost before = out@;
        push_escaped(&mut out, chars[k]);
        assert(chars@.take(k + 1).drop_last() =~= chars@.take(k as int));
        k += 1;
        assert(out@ =~= seq!['"'] + escaped(chars@.take(k as int)));
    }
    out.push('"');
    assert(chars@.take(chars@.len() as int) =~= chars@);
    let r = string_from_chars(&out, 0, out.len());
    assert(r@ =~= debug_str(s@));
    r
}

impl TokenValue {
    /// Whether `self` and `other` are of the same kind, whatever they hold.
    pub fn is_eq_variant(&self, other: &Self) -> (r: bool)
        ensures
            r == same_variant(self@, other@),
    {
        match (self, other) {
            (TokenValue::Identifier(_), TokenValue::Identifier(_)) => true,
            (TokenValue::Number(_), TokenValue::Number(_)) => true,
            (TokenValue::String(_), TokenValue::String(_)) => true,
            (TokenValue::LeftBrace, TokenValue::LeftBrace) => true,
            (TokenValue::RightBrace, TokenValue::RightBrace) => true,
            (TokenValue::LeftBracket, TokenValue::LeftBracket) => true,
            (TokenValue::RightBracket, TokenValue::RightBracket) => true,
            (TokenValue::LeftParen, TokenValue::LeftParen) => true,
            (TokenValue::RightParen, TokenValue::RightParen) => true,
            (TokenValue::Comma, TokenValue::Comma) => true,
            (TokenValue::Colon, TokenValue::Colon) => true,
            (TokenValue::Eof, TokenValue::Eof) => true,
            _ => false,
        }
    }

    /// How the value is shown in error messages.
    pub fn to_string(&self) -> (r: String)
        ensures
            r@ == display(self@),
    {
        let q = string_of_char('\'');
        match self {
            TokenValue::Identifier(s) => concat(concat(q.as_str(), s.as_str()).as_str(), q.as_str()),
            TokenValue::Number(s) => {
                let t = number_text_of(s);
                concat(concat(q.as_str(), t.as_str()).as_str(), q.as_str())
            },
            TokenValue::String(s) => concat(concat(q.as_str(), s.as_str()).as_str(), q.as_str()),
            TokenValue::LeftBrace => quoted('{'),
            TokenValue::RightBrace => quoted('}'),
            TokenValue::LeftBracket => quoted('['),
            TokenValue::RightBracket => quoted(']'),
            TokenValue::LeftParen => quoted('('),
            TokenValue::RightParen => quoted(')'),
            TokenValue::Comma => quoted(','),
            TokenValue::Colon => quoted(':'),
            TokenValue::Eof => {
                let v = vec!['E', 'O', 'F'];
                let r = string_from_chars(&v, 0, 3);
                assert(v@.subrange(0, 3) =~= seq!['E', 'O', 'F']);
                r
            },
        }
    }
}

/// The character `c` between single quotes.
fn quoted(c: char) -> (r: String)
    ensures
        r@ == seq!['\'', c, '\''],
{
    let v = vec!['\'', c, '\''];
    let r = string_from_chars(&v, 0, 3);
    assert(v@.subrange(0, 3) =~= seq!['\'', c, '\'']);
    r
}

/// A token and where it starts.
#[derive(Debug)]
pub struct Token {
    pub value: TokenValue,
    pub location: Location,
}

/// The mathematical content of a token.
pub struct TokenSpec {
    pub value: TokenModel,
    pub location: Location,
}

impl View for Token {
    type V = TokenSpec;

    open spec fn view(&self) -> TokenSpec {
        TokenSpec { value: self.value@, location: self.location }
    }
}

impl Clone for Token {
    fn clone(&self) -> (r: Self)
        ensures
            r@ == self@,
    {
        Token { value: self.value.clone(), location: self.location }
    }
}

impl Token {
    pub fn new(value: TokenValue, location: Location) -> (t: Token)
        ensures
            t@ == (TokenSpec { value: value@, location }),
    {
        Token { value, location }
    }
}

/// The views of a sequence of tokens.
pub open spec fn tokens_view(ts: Seq<Token>) -> Seq<TokenSpec> {
    ts.map_values(|t: Token| t@)
}

/// An error found while reading a scene file, with where it was found when
/// that is known.
#[derive(PartialEq, Debug)]
pub struct ParserError {
    pub message: String,
    pub location: Option<Location>,
}

/// The mathematical content of a parser error.
pub struct ErrorSpec {
    pub message: Seq<char>,
    pub location: Option<Location>,
}

impl View for ParserError {
    type V = ErrorSpec;

    open spec fn view(&self) -> ErrorSpec {
        ErrorSpec { message: self.message@, location: self.location }
    }
}

impl ParserError {
    pub fn new(message: &str, location: &Location) -> (e: ParserError)
        ensures
            e@ == (ErrorSpec { message: message@, location: Some(*location) }),
    {
        ParserError { message: message.to_owned(), location: Some(*location) }
    }

    pub fn without_location(message: &str) -> (e: ParserError)
        ensures
            e@ == (ErrorSpec { message: message@, location: None }),
    {
        ParserError { message: message.to_owned(), location: None }
    }
}

/// An error with a message and a location.
pub open spec fn error_at(message: Seq<char>, location: Location) -> ErrorSpec {
    ErrorSpec { message, location: Some(location) }
}

/// Reads characters one at a time while keeping track of the line and
/// column of the next character.
pub struct CharsWithLocation {
    chars: Vec<char>,
    pos: usize,
    location: Location,
}

impl CharsWithLocation {
    /// All the characters being read.
    pub closed spec fn spec_chars(&self) -> Seq<char> {
        self.chars@
    }

    /// How many characters have been read.
    pub closed spec fn spec_pos(&self) -> int {
        self.pos as int
    }

    /// The reader is consistent: the position lies within the input, and the
    /// location is that of the position.
    pub closed spec fn wf(&self) -> bool {
        &&& self.pos <= self.chars@.len()
        &&& self.chars@.len() < usize::MAX
        &&& self.location == location_at(self.chars@, self.pos as int)
    }

    /// A consistent reader's position lies within its input, the input is
    /// shorter than `usize::MAX`, and the position has a line and a column
    /// each at most one more than the position.
    pub proof fn lemma_wf_bounds(&self)
        requires
            self.wf(),
        ensures
            0 <= self.spec_pos() <= self.spec_chars().len(),
            self.spec_chars().len() < usize::MAX,
            1 <= line_at(self.spec_chars(), self.spec_pos()) <= self.spec_pos() + 1,
            1 <= column_at(self.spec_chars(), self.spec_pos()) <= self.spec_pos() + 1,
    {
        lemma_location_bounds(self.chars@, self.pos as int);
    }

    pub fn new(input: &str) -> (r: CharsWithLocation)
        requires
            input@.len() < usize::MAX,
        ensures
            r.wf(),
            r.spec_chars() == input@,
            r.spec_pos() == 0,
    {
        CharsWithLocation { chars: chars_of(input), pos: 0, location: Location { line: 1, column: 1 } }
    }

    /// The next character, without reading it.
    pub fn peek(&self) -> (r: Option<&char>)
        requires
            self.wf(),
        ensures
            self.spec_pos() < self.spec_chars().len() ==> r == Some(&self.spec_chars()[self.spec_pos()]),
            self.spec_pos() >= self.spec_chars().len() ==> r is None,
    {
        if self.pos < self.chars.len() {
            Some(&self.chars[self.pos])
        } else {
            None
        }
    }

    /// Reads the next character.
    pub fn next(&mut self) -> (r: Option<char>)
        requires
            old(self).wf(),
        ensures
            final(self).wf(),
            final(self).spec_chars() == old(self).spec_chars(),
            old(self).spec_pos() < old(self).spec_chars().len() ==> r == Some(
                old(self).spec_chars()[old(self).spec_pos()],
            ) && final(self).spec_pos() == old(self).spec_pos() + 1,
            old(self).spec_pos() >= old(self).spec_chars().len() ==> r is None
                && final(self).spec_pos() == old(self).spec_pos(),
    {
        if self.pos < self.chars.len() {
            let c = self.chars[self.pos];
            proof {
                lemma_location_bounds(self.chars@, self.pos as int);
            }
            if c == '\n' {
                self.location.line += 1;
                self.location.column = 1;
            } else {
                self.location.column += 1;
            }
            self.pos += 1;
            Some(c)
        } else {
            None
        }
    }

    /// The characters from `start` up to the current position.
    fn text_since(&self, start: usize) -> (t: String)
        requires
            self.wf(),
            start <= self.spec_pos(),
        ensures
            t@ == self.spec_chars().subrange(start as int, self.spec_pos()),
    {
        string_from_chars(&self.chars, start, self.pos)
    }

    /// The position of the next character.
    fn position(&self) -> (p: usize)
        ensures
            p == self.spec_pos(),
    {
        self.pos
    }

    /// The location of the next character.
    pub fn location(&self) -> (l: Location)
        requires
            self.wf(),
        ensures
            l == location_at(self.spec_chars(), self.spec_pos()),
    {
        self.location
    }
}

pub open spec fn is_digit(c: char) -> bool {
    '0' <= c <= '9'
}

pub open spec fn is_ident_start(c: char) -> bool {
    ('a' <= c <= 'z') || ('A' <= c <= 'Z') || c == '_'
}

pub open spec fn is_ident_char(c: char) -> bool {
    is_ident_start(c) || is_digit(c)
}

pub open spec fn is_space(c: char) -> bool {
    c == ' ' || c == '\t' || c == '\n' || c == '\r'
}

/// The token a punctuation character stands for.
pub open spec fn punctuation(c: char) -> Option<TokenModel> {
    if c == '{' {
        Some(TokenModel::LeftBrace)
    } else if c == '}' {
        Some(TokenModel::RightBrace)
    } else if c == '[' {
        Some(TokenModel::LeftBracket)
    } else if c == ']' {
        Some(TokenModel::RightBracket)
    } else if c == '(' {
        Some(TokenModel::LeftParen)
    } else if c == ')' {
        Some(TokenModel::RightParen)
    } else if c == ',' {
        Some(TokenModel::Comma)
    } else if c == ':' {
        Some(TokenModel::Colon)
    } else {
        None
    }
}

/// Where a comment that reaches position `i` ends: at the next newline or
/// the end of the input.
pub open spec fn comment_end(s: Seq<char>, i: int) -> int
    decreases s.len() - i,
{
    if i < 0 || i >= s.len() || s[i] == '\n' {
        i
    } else {
        comment_end(s, i + 1)
    }
}

/// The position of the first `q` at or after `i`, or the end of the input.
pub open spec fn quote_end(s: Seq<char>, i: int, q: char) -> int
    decreases s.len() - i,
{
    if i < 0 || i >= s.len() || s[i] == q {
        i
    } else {
        quote_end(s, i + 1, q)
    }
}

/// The end of the run of digits with at most one point that starts at `i`;
/// `has_point` tells whether a point was already seen.
pub open spec fn number_end(s: Seq<char>, i: int, has_point: bool) -> int
    decreases s.len() - i,
{
    if 0 <= i < s.len() && is_digit(s[i]) {
        number_end(s, i + 1, has_point)
    } else if 0 <= i < s.len() && !has_point && s[i] == '.' {
        number_end(s, i + 1, true)
    } else {
        i
    }
}

/// The end of the run of identifier characters that starts at `i`.
pub open spec fn ident_end(s: Seq<char>, i: int) -> int
    decreases s.len() - i,
{
    if 0 <= i < s.len() && is_ident_char(s[i]) {
        ident_end(s, i + 1)
    } else {
        i
    }
}

pub open spec fn has_digit(s: Seq<char>) -> bool {
    exists|k: int| 0 <= k < s.len() && is_digit(#[trigger] s[k])
}

pub proof fn lemma_comment_end(s: Seq<char>, i: int)
    requires
        0 <= i <= s.len(),
    ensures
        i <= comment_end(s, i) <= s.len(),
        comment_end(s, i) < s.len() ==> s[comment_end(s, i)] == '\n',
    decreases s.len() - i,
{
    if i < s.len() && s[i] != '\n' {
        lemma_comment_end(s, i + 1);
    }
}

pub proof fn lemma_quote_end(s: Seq<char>, i: int, q: char)
    requires
        0 <= i <= s.len(),
    ensures
        i <= quote_end(s, i, q) <= s.len(),
        quote_end(s, i, q) < s.len() ==> s[quote_end(s, i, q)] == q,
    decreases s.len() - i,
{
    if i < s.len() && s[i] != q {
        lemma_quote_end(s, i + 1, q);
    }
}

pub proof fn lemma_number_end(s: Seq<char>, i: int, has_point: bool)
    requires
        0 <= i <= s.len(),
    ensures
        i <= number_end(s, i, has_point) <= s.len(),
    decreases s.len() - i,
{
    if i < s.len() && is_digit(s[i]) {
        lemma_number_end(s, i + 1, has_point);
    } else if i < s.len() && !has_point && s[i] == '.' {
        lemma_number_end(s, i + 1, true);
    }
}

pub proof fn lemma_ident_end(s: Seq<char>, i: int)
    requires
        0 <= i <= s.len(),
    ensures
        i <= ident_end(s, i) <= s.len(),
    decreases s.len() - i,
{
    if i < s.len() && is_ident_char(s[i]) {
        lemma_ident_end(s, i + 1);
    }
}

/// Where the digits of a number starting at `i` begin: after its sign.
pub open spec fn number_start(s: Seq<char>, i: int) -> int {
    if s[i] == '+' || s[i] == '-' {
        i + 1
    } else {
        i
    }
}

/// Reads the number starting at `i`: its token and where it ends, or the
/// error when it holds no digit.
pub open spec fn number_token(s: Seq<char>, i: int) -> Result<(TokenSpec, int), ErrorSpec> {
    let j = number_end(s, number_start(s, i), false);
    let text = s.subrange(i, j);
    if has_digit(text) {
        Ok((TokenSpec { value: TokenModel::Number(text), location: location_at(s, i) }, j))
    } else {
        Err(
            error_at(
                "Cannot parse '"@ + text + "' as number"@,
                location_at(s, i),
            ),
        )
    }
}

/// Reads the string whose opening quote is at `i`: its token and the
/// position after the closing quote, or the error when it is not closed.
pub open spec fn string_token(s: Seq<char>, i: int) -> Result<(TokenSpec, int), ErrorSpec> {
    let j = quote_end(s, i + 1, s[i]);
    if j >= s.len() {
        Err(error_at("Unterminated string"@, location_at(s, i)))
    } else {
        Ok((TokenSpec { value: TokenModel::Str(s.subrange(i + 1, j)), location: location_at(s, i) }, j + 1))
    }
}

/// Reads the identifier starting at `i`: its token and where it ends.
pub open spec fn identifier_token(s: Seq<char>, i: int) -> (TokenSpec, int) {
    let j = ident_end(s, i + 1);
    (TokenSpec { value: TokenModel::Identifier(s.subrange(i, j)), location: location_at(s, i) }, j)
}

/// `t` followed by the tokens of `r`, or the error of `r`.
pub open spec fn prepend_one(t: TokenSpec, r: Result<Seq<TokenSpec>, ErrorSpec>) -> Result<Seq<TokenSpec>, ErrorSpec> {
    match r {
        Ok(ts) => Ok(seq![t] + ts),
        Err(e) => Err(e),
    }
}

/// `ts` followed by the tokens of `r`, or the error of `r`.
pub open spec fn prepend_all(ts: Seq<TokenSpec>, r: Result<Seq<TokenSpec>, ErrorSpec>) -> Result<Seq<TokenSpec>, ErrorSpec> {
    match r {
        Ok(rest) => Ok(ts + rest),
        Err(e) => Err(e),
    }
}

/// The tokens of `s` from position `i` on, ending with an end-of-file token,
/// or the first error met. Whitespace and comments (from `//` to the end of
/// the line) separate tokens; a lone `/` is an error.
pub open spec fn scan(s: Seq<char>, i: int) -> Result<Seq<TokenSpec>, ErrorSpec>
    decreases s.len() - i,
{
    if i < 0 || i >= s.len() {
        Ok(seq![TokenSpec { value: TokenModel::Eof, location: location_at(s, i) }])
    } else {
        let c = s[i];
        if is_space(c) {
            scan(s, i + 1)
        } else if c == '/' {
            if i + 1 < s.len() && s[i + 1] == '/' {
                proof {
                    lemma_comment_end(s, i + 2);
                }
                scan(s, comment_end(s, i + 2))
            } else {
                Err(error_at("Expected a second '/' to start a comment"@, location_at(s, i + 1)))
            }
        } else if punctuation(c) is Some {
            prepend_one(
                TokenSpec { value: punctuation(c)->0, location: location_at(s, i) },
                scan(s, i + 1),
            )
        } else if c == '"' || c == '\'' {
            let j = quote_end(s, i + 1, c);
            if j >= s.len() {
                Err(error_at("Unterminated string"@, location_at(s, i)))
            } else {
                proof {
                    lemma_quote_end(s, i + 1, c);
                }
                prepend_one(
                    TokenSpec { value: TokenModel::Str(s.subrange(i + 1, j)), location: location_at(s, i) },
                    scan(s, j + 1),
                )
            }
        } else if is_digit(c) || c == '+' || c == '-' {
            let j = number_end(s, number_start(s, i), false);
            let text = s.subrange(i, j);
            if has_digit(text) {
                proof {
                    lemma_number_end(s, number_start(s, i), false);
                    assert(j > i) by {
                        if j == i {
                            assert(text.len() == 0);
                        }
                    }
                }
                prepend_one(
                    TokenSpec { value: TokenModel::Number(text), location: location_at(s, i) },
                    scan(s, j),
                )
            } else {
                Err(error_at("Cannot parse '"@ + text + "' as number"@, location_at(s, i)))
            }
        } else if is_ident_start(c) {
            proof {
                lemma_ident_end(s, i + 1);
            }
            let j = ident_end(s, i + 1);
            prepend_one(
                TokenSpec { value: TokenModel::Identifier(s.subrange(i, j)), location: location_at(s, i) },
                scan(s, j),
            )
        } else {
            Err(error_at("Unexpected character: '"@ + seq![c] + "'"@, location_at(s, i)))
        }
    }
}

/// The tokens of a whole scene file, or the first error met.
pub open spec fn spec_tokenize(s: Seq<char>) -> Result<Seq<TokenSpec>, ErrorSpec> {
    scan(s, 0)
}

fn punctuation_token(c: char) -> (r: Option<TokenValue>)
    ensures
        r matches Some(v) ==> punctuation(c) == Some(v@),
        r is None ==> punctuation(c) is None,
{
    if c == '{' {
        Some(TokenValue::LeftBrace)
    } else if c == '}' {
        Some(TokenValue::RightBrace)
    } else if c == '[' {
        Some(TokenValue::LeftBracket)
    } else if c == ']' {
        Some(TokenValue::RightBracket)
    } else if c == '(' {
        Some(TokenValue::LeftParen)
    } else if c == ')' {
        Some(TokenValue::RightParen)
    } else if c == ',' {
        Some(TokenValue::Comma)
    } else if c == ':' {
        Some(TokenValue::Colon)
    } else {
        None
    }
}

fn tokenize_number(chars: &mut CharsWithLocation) -> (r: Result<Token, ParserError>)
    requires
        old(chars).wf(),
        old(chars).spec_pos() < old(chars).spec_chars().len(),
        is_digit(old(chars).spec_chars()[old(chars).spec_pos()]) || old(chars).spec_chars()[old(
            chars,
        ).spec_pos()] == '+' || old(chars).spec_chars()[old(chars).spec_pos()] == '-',
    ensures
        final(chars).wf(),
        final(chars).spec_chars() == old(chars).spec_chars(),
        match r {
            Ok(t) => number_token(old(chars).spec_chars(), old(chars).spec_pos()) == Ok::<
                (TokenSpec, int),
                ErrorSpec,
            >((t@, final(chars).spec_pos())),
            Err(e) => number_token(old(chars).spec_chars(), old(chars).spec_pos()) == Err::<
                (TokenSpec, int),
                ErrorSpec,
            >(e@),
        },
{
    let ghost s = chars.spec_chars();
    let ghost i = chars.spec_pos();
    let location = chars.location();
    let start = chars.position();
    let mut has_dot = false;
    let mut saw_digit = false;
    if let Some(c) = chars.peek() {
        let c = *c;
        if c == '+' || c == '-' {
            chars.next();
        }
    }
    assert(chars.spec_pos() == number_start(s, i));
    assert(s.subrange(i, chars.spec_pos()) =~= seq![s[i]] || chars.spec_pos() == i);
    loop
        invariant
            chars.wf(),
            chars.spec_chars() == s,
            0 <= i <= chars.spec_pos() <= s.len(),
            s == old(chars).spec_chars(),
            i == old(chars).spec_pos(),
            number_end(s, number_start(s, i), false) == number_end(s, chars.spec_pos(), has_dot),
            saw_digit == has_digit(s.subrange(i, chars.spec_pos())),
            location == location_at(s, i),
            start == i,
        ensures
            number_end(s, chars.spec_pos(), has_dot) == chars.spec_pos(),
        decreases s.len() - chars.spec_pos(),
    {
        let c = match chars.peek() {
            Some(c) => *c,
            None => break,
        };
        if '0' <= c && c <= '9' {
            let ghost p = chars.spec_pos();
            assert(p < s.len());
            assert(c == s[p]);
            chars.next();
            proof {
                assert(s.subrange(i, p + 1)[p - i] == c);
            }
            saw_digit = true;
        } else if !has_dot && c == '.' {
            let ghost p = chars.spec_pos();
            chars.next();
            has_dot = true;
            proof {
                let a = s.subrange(i, p);
                let b = s.subrange(i, p + 1);
                assert(b =~= a.push(c));
                if has_digit(b) {
                    let k = choose|k: int| 0 <= k < b.len() && is_digit(#[trigger] b[k]);
                    assert(k < a.len());
                    assert(a[k] == b[k]);
                }
                if has_digit(a) {
                    let k = choose|k: int| 0 <= k < a.len() && is_digit(#[trigger] a[k]);
                    assert(b[k] == a[k]);
                }
            }
        } else {
            break;
        }
    }
    let number = chars.text_since(start);
    if saw_digit {
        Ok(Token::new(TokenValue::Number(number), location))
    } else {
        let message = concat(concat("Cannot parse '", number.as_str()).as_str(), "' as number");
        Err(ParserError::new(message.as_str(), &location))
    }
}

fn tokenize_string(chars: &mut CharsWithLocation) -> (r: Result<Token, ParserError>)
    requires
        old(chars).wf(),
        old(chars).spec_pos() < old(chars).spec_chars().len(),
    ensures
        final(chars).wf(),
        final(chars).spec_chars() == old(chars).spec_chars(),
        match r {
            Ok(t) => string_token(old(chars).spec_chars(), old(chars).spec_pos()) == Ok::<
                (TokenSpec, int),
                ErrorSpec,
            >((t@, final(chars).spec_pos())),
            Err(e) => string_token(old(chars).spec_chars(), old(chars).spec_pos()) == Err::<
                (TokenSpec, int),
                ErrorSpec,
            >(e@),
        },
{
    let ghost s = chars.spec_chars();
    let ghost i = chars.spec_pos();
    let location = chars.location();
    let start_char = chars.next().unwrap();
    let start = chars.position();
    loop
        invariant
            chars.wf(),
            chars.spec_chars() == s,
            0 <= i < start <= chars.spec_pos() <= s.len(),
            start == i + 1,
            s == old(chars).spec_chars(),
            i == old(chars).spec_pos(),
            start_char == s[i],
            quote_end(s, i + 1, s[i]) == quote_end(s, chars.spec_pos(), s[i]),
            location == location_at(s, i),
        ensures
            chars.spec_pos() == s.len(),
        decreases s.len() - chars.spec_pos(),
    {
        let ghost p = chars.spec_pos();
        let string = chars.text_since(start);
        match chars.next() {
            Some(c) => {
                if c == start_char {
                    return Ok(Token::new(TokenValue::String(string), location));
                }
            },
            None => {
                break;
            },
        }
    }
    Err(ParserError::new("Unterminated string", &location))
}

/// Splits a scene file into tokens, ending with an end-of-file token.
pub fn tokenize(input: &str) -> (r: Result<Vec<Token>, ParserError>)
    requires
        input@.len() < usize::MAX,
    ensures
        match r {
            Ok(tokens) => spec_tokenize(input@) == Ok::<Seq<TokenSpec>, ErrorSpec>(
                tokens_view(tokens@),
            ),
            Err(e) => spec_tokenize(input@) == Err::<Seq<TokenSpec>, ErrorSpec>(e@),
        },
{
    let mut tokens: Vec<Token> = Vec::new();
    let mut chars = CharsWithLocation::new(input);
    let ghost s = input@;
    assert(tokens_view(tokens@) =~= Seq::<TokenSpec>::empty());
    assert(Seq::<TokenSpec>::empty() + Seq::<TokenSpec>::empty() =~= Seq::<TokenSpec>::empty());
    loop
        invariant
            chars.wf(),
            chars.spec_chars() == s,
            s == input@,
            s.len() < usize::MAX,
            scan(s, 0) == prepend_all(tokens_view(tokens@), scan(s, chars.spec_pos())),
        ensures
            chars.spec_pos() == s.len(),
        decreases s.len() - chars.spec_pos(),
    {
        let ghost i = chars.spec_pos();
        let c = match chars.peek() {
            Some(c) => *c,
            None => break,
        };
        assert(c == s[i]);
        if c == ' ' || c == '\t' || c == '\n' || c == '\r' {
            // Skip whitespace
        } else if c == '/' {
            chars.next();
            // Consume comments beginning with '//' to end of line
            match chars.peek() {
                Some(c) if *c == '/' => {
                    chars.next();
                    loop
                        invariant
                            chars.wf(),
                            chars.spec_chars() == s,
                            i + 2 <= chars.spec_pos() <= s.len(),
                            comment_end(s, i + 2) == comment_end(s, chars.spec_pos()),
                        ensures
                            comment_end(s, chars.spec_pos()) == chars.spec_pos(),
                        decreases s.len() - chars.spec_pos(),
                    {
                        let c = match chars.peek() {
                            Some(c) => *c,
                            None => break,
                        };
                        if c == '\n' {
                            break;
                        }
                        chars.next();
                    }
                    proof {
                        lemma_comment_end(s, i + 2);
                        let ce = chars.spec_pos();
                        assert(scan(s, i) == scan(s, ce));
                        if ce < s.len() {
                            assert(s[ce] == '\n');
                            assert(scan(s, ce) == scan(s, ce + 1));
                        }
                    }
                },
                _ => {
                    let e = ParserError::new(
                        "Expected a second '/' to start a comment",
                        &chars.location(),
                    );
                    assert(!(i + 1 < s.len() && s[i + 1] == '/'));
                    assert(scan(s, i) == Err::<Seq<TokenSpec>, ErrorSpec>(e@));
                    return Err(e);
                },
            }
        } else if let Some(value) = punctuation_token(c) {
            let ghost before = tokens@;
            tokens.push(Token::new(value, chars.location()));
            proof {
                assert(tokens_view(tokens@) =~= tokens_view(before).push(tokens@.last()@));
                assert(tokens_view(before).push(tokens@.last()@) + scan(s, i + 1)->Ok_0 =~= tokens_view(before) + (seq![tokens@.last()@] + scan(s, i + 1)->Ok_0));
            }
        } else if c == '"' || c == '\'' {
            match tokenize_string(&mut chars) {
                Ok(token) => {
                    let ghost before = tokens@;
                    tokens.push(token);
                    proof {
                        lemma_quote_end(s, i + 1, c);
                        assert(tokens_view(tokens@) =~= tokens_view(before).push(tokens@.last()@));
                        assert(tokens_view(before).push(tokens@.last()@) + scan(s, chars.spec_pos())->Ok_0 =~= tokens_view(before) + (seq![tokens@.last()@] + scan(s, chars.spec_pos())->Ok_0));
                    }
                    continue;
                },
                Err(e) => return Err(e),
            }
        } else if ('0' <= c && c <= '9') || c == '+' || c == '-' {
            match tokenize_number(&mut chars) {
                Ok(token) => {
                    let ghost before = tokens@;
                    tokens.push(token);
                    proof {
                        lemma_number_end(s, number_start(s, i), false);
                        assert(tokens_view(tokens@) =~= tokens_view(before).push(tokens@.last()@));
                        assert(tokens_view(before).push(tokens@.last()@) + scan(s, chars.spec_pos())->Ok_0 =~= tokens_view(before) + (seq![tokens@.last()@] + scan(s, chars.spec_pos())->Ok_0));
                    }
                    continue;
                },
                Err(e) => return Err(e),
            }
        } else if ('a' <= c && c <= 'z') || ('A' <= c && c <= 'Z') || c == '_' {
            let location = chars.location();
            let start = chars.position();
            chars.next();
            loop
                invariant
                    chars.wf(),
                    chars.spec_chars() == s,
                    i + 1 <= chars.spec_pos() <= s.len(),
                    start == i,
                    ident_end(s, i + 1) == ident_end(s, chars.spec_pos()),
                    location == location_at(s, i),
                ensures
                    ident_end(s, chars.spec_pos()) == chars.spec_pos(),
                decreases s.len() - chars.spec_pos(),
            {
                let c = match chars.peek() {
                    Some(c) => *c,
                    None => break,
                };
                if ('a' <= c && c <= 'z') || ('A' <= c && c <= 'Z') || ('0' <= c && c <= '9') || c
                    == '_' {
                    chars.next();
                } else {
                    break;
                }
            }
            let identifier = chars.text_since(start);
            let ghost before = tokens@;
            tokens.push(Token::new(TokenValue::Identifier(identifier), location));
            proof {
                lemma_ident_end(s, i + 1);
                assert(tokens_view(tokens@) =~= tokens_view(before).push(tokens@.last()@));
                assert(tokens_view(before).push(tokens@.last()@) + scan(s, chars.spec_pos())->Ok_0 =~= tokens_view(before) + (seq![tokens@.last()@] + scan(s, chars.spec_pos())->Ok_0));
            }
            continue;
        } else {
            let message = concat(
                concat("Unexpected character: '", string_of_char(c).as_str()).as_str(),
                "'",
            );
            let e = ParserError::new(message.as_str(), &chars.location());
            assert(scan(s, i) == Err::<Seq<TokenSpec>, ErrorSpec>(e@));
            return Err(e);
        }
        chars.next();
    }
    let ghost before = tokens@;
    tokens.push(Token::new(TokenValue::Eof, chars.location()));
    proof {
        assert(tokens_view(tokens@) =~= tokens_view(before).push(tokens@.last()@));
        assert(tokens_view(before) + seq![tokens@.last()@] =~= tokens_view(before).push(tokens@.last()@));
    }
    Ok(tokens)
}

/// A token list that ends with its one end-of-file token.
pub open spec fn ends_with_eof(ts: Seq<TokenSpec>) -> bool {
    &&& ts.len() > 0
    &&& ts.last().value is Eof
    &&& forall|k: int| 0 <= k < ts.len() - 1 ==> !(#[trigger] ts[k].value is Eof)
}

/// Whatever scene file is tokenized, the tokens end with an end-of-file
/// token, and no other token is one.
pub proof fn lemma_tokens_end_with_eof(s: Seq<char>, i: int)
    requires
        0 <= i,
    ensures
        scan(s, i) matches Ok(ts) ==> ends_with_eof(ts),
    decreases s.len() - i,
{
    if i < s.len() {
        let c = s[i];
        if is_space(c) {
            lemma_tokens_end_with_eof(s, i + 1);
        } else if c == '/' {
            if i + 1 < s.len() && s[i + 1] == '/' {
                lemma_comment_end(s, i + 2);
                lemma_tokens_end_with_eof(s, comment_end(s, i + 2));
            }
        } else if punctuation(c) is Some {
            lemma_tokens_end_with_eof(s, i + 1);
            lemma_prepend_keeps_eof(TokenSpec { value: punctuation(c)->0, location: location_at(s, i) }, scan(s, i + 1));
        } else if c == '"' || c == '\'' {
            let j = quote_end(s, i + 1, c);
            if j < s.len() {
                lemma_quote_end(s, i + 1, c);
                lemma_tokens_end_with_eof(s, j + 1);
                lemma_prepend_keeps_eof(TokenSpec { value: TokenModel::Str(s.subrange(i + 1, j)), location: location_at(s, i) }, scan(s, j + 1));
            }
        } else if is_digit(c) || c == '+' || c == '-' {
            let j = number_end(s, number_start(s, i), false);
            let text = s.subrange(i, j);
            if has_digit(text) {
                lemma_number_end(s, number_start(s, i), false);
                lemma_tokens_end_with_eof(s, j);
                lemma_prepend_keeps_eof(TokenSpec { value: TokenModel::Number(text), location: location_at(s, i) }, scan(s, j));
            }
        } else if is_ident_start(c) {
            lemma_ident_end(s, i + 1);
            let j = ident_end(s, i + 1);
            lemma_tokens_end_with_eof(s, j);
            lemma_prepend_keeps_eof(TokenSpec { value: TokenModel::Identifier(s.subrange(i, j)), location: location_at(s, i) }, scan(s, j));
        }
    }
}

proof fn lemma_prepend_keeps_eof(t: TokenSpec, r: Result<Seq<TokenSpec>, ErrorSpec>)
    requires
        !(t.value is Eof),
        r matches Ok(ts) ==> ends_with_eof(ts),
    ensures
        prepend_one(t, r) matches Ok(ts) ==> ends_with_eof(ts),
{
    if let Ok(ts) = r {
        let u = seq![t] + ts;
        assert forall|k: int| 0 <= k < u.len() - 1 implies !(#[trigger] u[k].value is Eof) by {
            if k > 0 {
                assert(u[k] == ts[k - 1]);
            }
        }
        assert(u.last() == ts.last());
    }
}

/// Whether location `a` comes strictly before location `b` in a text: on an
/// earlier line, or on the same line in an earlier column.
pub open spec fn before(a: Location, b: Location) -> bool {
    a.line < b.line || (a.line == b.line && a.column < b.column)
}

/// Whether each token of `ts` starts strictly before every later one.
pub open spec fn locations_increase(ts: Seq<TokenSpec>) -> bool {
    forall|a: int, b: int| 0 <= a < b < ts.len() ==> before(#[trigger] ts[a].location, #[trigger] ts[b].location)
}

/// The location of a position of `s` comes strictly before that of any
/// later position.
pub proof fn lemma_location_order(s: Seq<char>, i: int, j: int)
    requires
        0 <= i < j <= s.len(),
        s.len() < usize::MAX,
    ensures
        before(location_at(s, i), location_at(s, j)),
    decreases j - i,
{
    lemma_location_bounds(s, j);
    lemma_location_bounds(s, j - 1);
    lemma_location_bounds(s, i);
    if j - 1 > i {
        lemma_location_order(s, i, j - 1);
    }
}

/// A token placed before tokens that all stand after it keeps the order.
proof fn lemma_prepend_in_order(t: TokenSpec, ts: Seq<TokenSpec>)
    requires
        locations_increase(ts),
        forall|k: int| 0 <= k < ts.len() ==> before(t.location, #[trigger] ts[k].location),
    ensures
        locations_increase(seq![t] + ts),
{
    let u = seq![t] + ts;
    assert forall|a: int, b: int| 0 <= a < b < u.len() implies before(#[trigger] u[a].location, #[trigger] u[b].location) by {
        assert(u[b] == ts[b - 1]);
        if a > 0 {
            assert(u[a] == ts[a - 1]);
        }
    }
}

/// The tokens of `s` from position `i` on stand in order, none before the
/// location of `i`, and the last stands just past the end of `s`.
proof fn lemma_scan_locations(s: Seq<char>, i: int)
    requires
        0 <= i <= s.len(),
        s.len() < usize::MAX,
    ensures
        scan(s, i) matches Ok(ts) ==> {
            &&& ts.len() > 0
            &&& locations_increase(ts)
            &&& ts.last().location == location_at(s, s.len() as int)
            &&& forall|k: int|
                0 <= k < ts.len() ==> location_at(s, i) == #[trigger] ts[k].location || before(location_at(s, i), ts[k].location)
        },
    decreases s.len() - i,
{
    if i < s.len() {
        let c = s[i];
        let mut j: int = i + 1;
        if is_space(c) {
            j = i + 1;
        } else if c == '/' {
            if i + 1 < s.len() && s[i + 1] == '/' {
                lemma_comment_end(s, i + 2);
                j = comment_end(s, i + 2);
            } else {
                return;
            }
        } else if punctuation(c) is Some {
            j = i + 1;
        } else if c == '"' || c == '\'' {
            lemma_quote_end(s, i + 1, c);
            let q = quote_end(s, i + 1, c);
            if q >= s.len() {
                return;
            }
            j = q + 1;
        } else if is_digit(c) || c == '+' || c == '-' {
            lemma_number_end(s, number_start(s, i), false);
            let e = number_end(s, number_start(s, i), false);
            let text = s.subrange(i, e);
            if !has_digit(text) {
                return;
            }
            assert(e > i) by {
                if e == i {
                    assert(text.len() == 0);
                }
            }
            j = e;
        } else if is_ident_start(c) {
            lemma_ident_end(s, i + 1);
            j = ident_end(s, i + 1);
        } else {
            return;
        }
        lemma_scan_locations(s, j);
        lemma_location_order(s, i, j);
        if let Ok(rest) = scan(s, j) {
            assert forall|k: int| 0 <= k < rest.len() implies before(location_at(s, i), #[trigger] rest[k].location) by {
                assert(location_at(s, j) == rest[k].location || before(location_at(s, j), rest[k].location));
            }
            if !is_space(c) && c != '/' {
                if let Ok(ts) = scan(s, i) {
                    assert(ts =~= seq![ts[0]] + rest);
                    assert(ts[0].location == location_at(s, i));
                    lemma_prepend_in_order(ts[0], rest);
                    assert forall|k: int| 0 <= k < ts.len() implies location_at(s, i) == #[trigger] ts[k].location || before(location_at(s, i), ts[k].location) by {
                        if k > 0 {
                            assert(ts[k] == rest[k - 1]);
                        }
                    }
                }
            }
        }
    }
}

/// The tokens of a scene file stand in the order of its text: each token
/// starts strictly before the next, and the end-of-file token stands just
/// past the last character.
pub proof fn lemma_token_locations(s: Seq<char>)
    requires
        s.len() < usize::MAX,
    ensures
        spec_tokenize(s) matches Ok(ts) ==> ts.len() > 0 && locations_increase(ts) && ts.last().location == location_at(
            s,
            s.len() as int,
        ),
{
    lemma_scan_locations(s, 0);
}

} // verus!
