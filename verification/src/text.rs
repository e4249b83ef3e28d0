//! Character-level building blocks of the line-oriented VASP formats:
//! Unicode whitespace, `split_whitespace`, `trim`, decimal integers and the
//! syntax of floating-point literals.

use vstd::prelude::*;
use vstd::string::StrSliceExecFns;

verus! {

/// The characters with the Unicode `White_Space` property, which is what
/// `char::is_whitespace` tests.
pub open spec fn is_ws(c: char) -> bool {
    let u = c as u32;
    ||| 0x09 <= u <= 0x0d
    ||| u == 0x20
    ||| u == 0x85
    ||| u == 0xa0
    ||| u == 0x1680
    ||| 0x2000 <= u <= 0x200a
    ||| u == 0x2028
    ||| u == 0x2029
    ||| u == 0x202f
    ||| u == 0x205f
    ||| u == 0x3000
}

/// Length of the longest prefix of `s` that holds no whitespace.
pub open spec fn word_len(s: Seq<char>) -> nat
    decreases s.len(),
{
    if s.len() == 0 || is_ws(s[0]) {
        0
    } else {
        1 + word_len(s.drop_first())
    }
}

pub proof fn lemma_word_len(s: Seq<char>)
    ensures
        word_len(s) <= s.len(),
        s.len() > 0 && !is_ws(s[0]) ==> word_len(s) >= 1,
        forall|i: int| 0 <= i < word_len(s) ==> !is_ws(#[trigger] s[i]),
        word_len(s) < s.len() ==> is_ws(s[word_len(s) as int]),
    decreases s.len(),
{
    if s.len() > 0 && !is_ws(s[0]) {
        lemma_word_len(s.drop_first());
        assert forall|i: int| 0 <= i < word_len(s) implies !is_ws(#[trigger] s[i]) by {
            if i > 0 {
                assert(s[i] == s.drop_first()[i - 1]);
            }
        }
    }
}

/// The maximal runs of non-whitespace characters of `s`, in order.
pub open spec fn words(s: Seq<char>) -> Seq<Seq<char>>
    decreases s.len(),
{
    if s.len() == 0 {
        seq![]
    } else if is_ws(s[0]) {
        words(s.drop_first())
    } else {
        let n = word_len(s);
        proof {
            lemma_word_len(s);
        }
        seq![s.take(n as int)] + words(s.skip(n as int))
    }
}

/// `s` without its leading whitespace.
pub open spec fn trim_start(s: Seq<char>) -> Seq<char>
    decreases s.len(),
{
    if s.len() > 0 && is_ws(s[0]) {
        trim_start(s.drop_first())
    } else {
        s
    }
}

/// `s` without its trailing whitespace.
pub open spec fn trim_end(s: Seq<char>) -> Seq<char>
    decreases s.len(),
{
    if s.len() > 0 && is_ws(s.last()) {
        trim_end(s.drop_last())
    } else {
        s
    }
}

/// `s` without leading and trailing whitespace.
pub open spec fn trim(s: Seq<char>) -> Seq<char> {
    trim_end(trim_start(s))
}

pub open spec fn is_digit(c: char) -> bool {
    '0' <= c <= '9'
}

pub open spec fn all_digits(s: Seq<char>) -> bool {
    forall|i: int| 0 <= i < s.len() ==> is_digit(#[trigger] s[i])
}

/// The value of a string of decimal digits, most significant first.
pub open spec fn decimal_value(s: Seq<char>) -> nat
    decreases s.len(),
{
    if s.len() == 0 {
        0
    } else {
        decimal_value(s.drop_last()) * 10 + ((s.last() as u32) - ('0' as u32)) as nat
    }
}

/// The digits of an unsigned decimal literal: an optional `+` followed by at
/// least one ASCII digit.
pub open spec fn unsigned_digits(s: Seq<char>) -> Option<Seq<char>> {
    let d = if s.len() > 0 && s[0] == '+' { s.drop_first() } else { s };
    if d.len() > 0 && all_digits(d) {
        Some(d)
    } else {
        None
    }
}

/// What `str::parse::<usize>` gives: the value of an unsigned decimal literal
/// that fits in `usize`, and nothing for any other string.
pub open spec fn parsed_usize(s: Seq<char>) -> Option<usize> {
    match unsigned_digits(s) {
        Some(d) => if decimal_value(d) <= usize::MAX {
            Some(decimal_value(d) as usize)
        } else {
            None
        },
        None => None,
    }
}

/// The texts of `v`.
pub open spec fn strings_view(v: Seq<String>) -> Seq<Seq<char>> {
    v.map_values(|x: String| x@)
}

/// `s` splits at a whitespace character at `i` into the words after it.
proof fn lemma_words_skip_ws(s: Seq<char>, i: int)
    requires
        0 <= i < s.len(),
        is_ws(s[i]),
    ensures
        words(s.skip(i)) == words(s.skip(i + 1)),
{
    assert(s.skip(i).drop_first() =~= s.skip(i + 1));
    assert(s.skip(i)[0] == s[i]);
}

/// The word that starts at `i` runs to `j`, and the words after it follow.
proof fn lemma_words_skip_word(s: Seq<char>, i: int, j: int)
    requires
        0 <= i < j <= s.len(),
        forall|k: int| i <= k < j ==> !is_ws(#[trigger] s[k]),
        j == s.len() || is_ws(s[j]),
    ensures
        words(s.skip(i)) == seq![s.subrange(i, j)] + words(s.skip(j)),
{
    let t = s.skip(i);
    lemma_word_len(t);
    let w = word_len(t) as int;
    assert(t[0] == s[i]);
    if w < j - i {
        assert(t[w] == s[i + w]);
    }
    if w > j - i {
        assert(t[j - i] == s[j]);
    }
    assert(w == j - i);
    assert(t.take(w) =~= s.subrange(i, j));
    assert(t.skip(w) =~= s.skip(j));
}

/// Splits `s` at whitespace into its words (see [`words`]), as
/// `str::split_whitespace` does.
pub(crate) fn split_ws(s: &str) -> (r: Vec<String>)
    ensures
        r@.len() == words(s@).len(),
        forall|i: int| 0 <= i < r@.len() ==> (#[trigger] r@[i])@ == words(s@)[i],
{
    broadcast use vstd::string::to_string_from_display_ensures_for_str;

    let c = chars_of(s);
    let n = c.len();
    let mut out: Vec<String> = Vec::new();
    let mut i: usize = 0;
    assert(s@.skip(0) =~= s@);
    assert(strings_view(out@) + words(s@.skip(0)) =~= words(s@));
    while i < n
        invariant
            i <= n == c@.len(),
            c@ == s@,
            strings_view(out@) + words(s@.skip(i as int)) == words(s@),
        decreases n - i,
    {
        if is_ws_char(c[i]) {
            proof {
                lemma_words_skip_ws(s@, i as int);
            }
            i = i + 1;
        } else {
            let mut j: usize = i;
            while j < n && !is_ws_char(c[j])
                invariant
                    i <= j <= n == c@.len(),
                    c@ == s@,
                    forall|k: int| i <= k < j ==> !is_ws(#[trigger] s@[k]),
                decreases n - j,
            {
                j = j + 1;
            }
            assert(j > i) by {
                assert(!is_ws(s@[i as int]));
            }
            proof {
                lemma_words_skip_word(s@, i as int, j as int);
            }
            let word = s.substring_char(i, j).to_string();
            let ghost before = strings_view(out@);
            out.push(word);
            assert(strings_view(out@) =~= before.push(s@.subrange(i as int, j as int)));
            assert(strings_view(out@) + words(s@.skip(j as int)) =~= before + (seq![s@.subrange(i as int, j as int)] + words(s@.skip(j as int))));
            i = j;
        }
    }
    assert(words(s@.skip(n as int)) =~= Seq::<Seq<char>>::empty()) by {
        assert(s@.skip(n as int).len() == 0);
    }
    assert(strings_view(out@) =~= words(s@));
    assert forall|k: int| 0 <= k < out@.len() implies (#[trigger] out@[k])@ == words(s@)[k] by {
        assert(strings_view(out@)[k] == out@[k]@);
    }
    out
}

/// Whether `c` has the Unicode `White_Space` property.
pub fn is_ws_char(c: char) -> (r: bool)
    ensures
        r == is_ws(c),
{
    let u = c as u32;
    (0x09 <= u && u <= 0x0d) || u == 0x20 || u == 0x85 || u == 0xa0 || u == 0x1680 || (0x2000 <= u && u
        <= 0x200a) || u == 0x2028 || u == 0x2029 || u == 0x202f || u == 0x205f || u == 0x3000
}

/// `s` without leading and trailing whitespace, as `str::trim` gives it.
pub(crate) fn trim_ws(s: &str) -> (r: String)
    ensures
        r@ == trim(s@),
{
    broadcast use vstd::string::to_string_from_display_ensures_for_str;

    let c = chars_of(s);
    let n = c.len();
    let mut start: usize = 0;
    assert(s@.skip(0) =~= s@);
    while start < n && is_ws_char(c[start])
        invariant
            start <= n == c@.len(),
            c@ == s@,
            trim_start(s@) == trim_start(s@.skip(start as int)),
        decreases n - start,
    {
        assert(s@.skip(start as int).drop_first() =~= s@.skip(start + 1));
        start = start + 1;
    }
    let ghost t = s@.skip(start as int);
    assert(trim_start(s@) == t) by {
        if start < n {
            assert(t[0] == c@[start as int]);
        } else {
            assert(t.len() == 0);
        }
    }
    let mut end: usize = n;
    while end > start && is_ws_char(c[end - 1])
        invariant
            start <= end <= n == c@.len(),
            c@ == s@,
            t == s@.skip(start as int),
            trim_end(t) == trim_end(s@.subrange(start as int, end as int)),
        decreases end,
    {
        assert(s@.subrange(start as int, end as int).drop_last() =~= s@.subrange(start as int, end - 1));
        end = end - 1;
    }
    assert(trim_end(s@.subrange(start as int, end as int)) == s@.subrange(start as int, end as int)) by {
        if end > start {
            assert(s@.subrange(start as int, end as int).last() == c@[end - 1]);
        }
    }
    assert(t =~= s@.subrange(start as int, n as int));
    s.substring_char(start, end).to_string()
}

proof fn lemma_decimal_value_grows(d: Seq<char>, j: int)
    requires
        0 <= j <= d.len(),
        all_digits(d),
    ensures
        decimal_value(d.take(j)) <= decimal_value(d),
    decreases d.len(),
{
    if j < d.len() {
        lemma_decimal_value_grows(d.drop_last(), j);
        assert(d.drop_last().take(j) =~= d.take(j));
        assert(is_digit(d.last()));
    } else {
        assert(d.take(j) =~= d);
    }
}

/// Parses an unsigned decimal integer: an optional `+` and ASCII digits
/// whose value fits in `usize`, as `str::parse::<usize>` does.
pub(crate) fn parse_usize(s: &str) -> (r: Option<usize>)
    ensures
        r == parsed_usize(s@),
{
    let c = chars_of(s);
    let start: usize = if c.len() > 0 && c[0] == '+' { 1 } else { 0 };
    let ghost d = if c@.len() > 0 && c@[0] == '+' { c@.drop_first() } else { c@ };
    assert(d =~= c@.skip(start as int));
    if start >= c.len() {
        return None;
    }
    let mut value: usize = 0;
    let mut i: usize = start;
    while i < c.len()
        invariant
            start <= i <= c@.len(),
            start < c@.len(),
            c@ == s@,
            d == (if s@.len() > 0 && s@[0] == '+' { s@.drop_first() } else { s@ }),
            d == c@.skip(start as int),
            all_digits(d.take(i - start)),
            value == decimal_value(d.take(i - start)),
        decreases c.len() - i,
    {
        let ch = c[i];
        if !('0' <= ch && ch <= '9') {
            assert(!all_digits(d)) by {
                assert(d[i - start] == ch);
            }
            return None;
        }
        let digit = (ch as u32 - '0' as u32) as usize;
        let ghost next = d.take(i - start + 1);
        assert(next.drop_last() =~= d.take(i - start));
        assert(next.last() == ch);
        assert(decimal_value(next) == value * 10 + digit);
        if value > (usize::MAX - digit) / 10 {
            proof {
                assert(value * 10 + digit > usize::MAX) by (nonlinear_arith)
                    requires
                        value > (usize::MAX - digit) / 10,
                        digit <= 9,
                ;
                if all_digits(d) {
                    lemma_decimal_value_grows(d, i - start + 1);
                }
            }
            return None;
        }
        assert(value * 10 + digit <= usize::MAX) by (nonlinear_arith)
            requires
                value <= (usize::MAX - digit) / 10,
                digit <= 9,
        ;
        value = value * 10 + digit;
        i = i + 1;
        assert(all_digits(d.take(i - start))) by {
            assert forall|k: int| 0 <= k < d.take(i - start).len() implies is_digit(#[trigger] d.take(i - start)[k]) by {
                if k < i - 1 - start {
                    assert(d.take(i - start)[k] == d.take(i - 1 - start)[k]);
                }
            }
        }
    }
    assert(d.take(i - start) =~= d);
    Some(value)
}

/// The characters of `s`, in order.
pub fn chars_of(s: &str) -> (r: Vec<char>)
    ensures
        r@ == s@,
{
    let mut v: Vec<char> = Vec::new();
    for c in it: s.chars()
        invariant
            v@ == it.seq().take(it.index() as int),
    {
        v.push(c);
    }
    v
}


/// `c` is the ASCII letter `lower` (given in lower case) in either case.
pub open spec fn same_letter(c: char, lower: char) -> bool {
    c == lower || c as u32 == lower as u32 - 32
}

/// `s` spells the lower-case ASCII word `w`, ignoring case.
pub open spec fn spells(s: Seq<char>, w: Seq<char>) -> bool {
    s.len() == w.len() && forall|i: int| 0 <= i < s.len() ==> same_letter(#[trigger] s[i], w[i])
}

pub open spec fn is_sign(c: char) -> bool {
    c == '+' || c == '-'
}

pub open spec fn is_exp_mark(c: char) -> bool {
    c == 'e' || c == 'E'
}

/// Index of the first `e` or `E` in `s`, or its length when there is none.
pub open spec fn exp_mark_index(s: Seq<char>) -> nat
    decreases s.len(),
{
    if s.len() == 0 || is_exp_mark(s[0]) {
        0
    } else {
        1 + exp_mark_index(s.drop_first())
    }
}

/// `Digit+ | Digit+ '.' Digit* | Digit* '.' Digit+`: digits with at most one
/// decimal point and at least one digit.
pub open spec fn is_mantissa(m: Seq<char>) -> bool {
    &&& forall|i: int| 0 <= i < m.len() ==> is_digit(#[trigger] m[i]) || m[i] == '.'
    &&& forall|i: int, j: int| 0 <= i < m.len() && 0 <= j < m.len() && m[i] == '.' && m[j] == '.' ==> i == j
    &&& exists|i: int| 0 <= i < m.len() && is_digit(#[trigger] m[i])
}

/// `'e' Sign? Digit+`, the `e` in either case.
pub open spec fn is_exponent(x: Seq<char>) -> bool {
    &&& x.len() >= 2
    &&& is_exp_mark(x[0])
    &&& {
        let d = if is_sign(x[1]) { x.skip(2) } else { x.skip(1) };
        d.len() > 0 && all_digits(d)
    }
}

/// `Number ::= Mantissa Exp?`
pub open spec fn is_number(b: Seq<char>) -> bool {
    let k = exp_mark_index(b) as int;
    is_mantissa(b.take(k)) && (k == b.len() || is_exponent(b.skip(k)))
}

/// The strings that `str::parse::<f64>` accepts. Its documentation gives the
/// grammar, for the string lowered to ASCII lower case:
/// `Float ::= Sign? ( 'inf' | 'infinity' | 'nan' | Number )`,
/// `Number ::= ( Digit+ | Digit+ '.' Digit* | Digit* '.' Digit+ ) Exp?`,
/// `Exp ::= 'e' Sign? Digit+`, `Sign ::= [+-]`, `Digit ::= [0-9]`.
pub open spec fn float_literal(s: Seq<char>) -> bool {
    let b = if s.len() > 0 && is_sign(s[0]) { s.drop_first() } else { s };
    ||| spells(b, seq!['i', 'n', 'f'])
    ||| spells(b, seq!['i', 'n', 'f', 'i', 'n', 'i', 't', 'y'])
    ||| spells(b, seq!['n', 'a', 'n'])
    ||| is_number(b)
}

fn same_letter_exec(c: char, lower: char) -> (r: bool)
    requires
        'a' <= lower <= 'z',
    ensures
        r == same_letter(c, lower),
{
    c == lower || c as u32 == lower as u32 - 32
}

/// Whether `b[from..]` spells the lower-case word `w`, ignoring case.
fn spells_exec(b: &Vec<char>, from: usize, w: &Vec<char>) -> (r: bool)
    requires
        from <= b.len(),
        forall|i: int| 0 <= i < w.len() ==> 'a' <= #[trigger] w[i] <= 'z',
    ensures
        r == spells(b@.skip(from as int), w@),
{
    if b.len() - from != w.len() {
        return false;
    }
    let mut i: usize = 0;
    while i < w.len()
        invariant
            i <= w.len(),
            b.len() - from == w.len(),
            forall|j: int| 0 <= j < w.len() ==> 'a' <= #[trigger] w[j] <= 'z',
            forall|j: int| 0 <= j < i ==> same_letter(#[trigger] b@.skip(from as int)[j], w@[j]),
        decreases w.len() - i,
    {
        if !same_letter_exec(b[from + i], w[i]) {
            assert(!same_letter(b@.skip(from as int)[i as int], w@[i as int]));
            return false;
        }
        i = i + 1;
    }
    true
}

proof fn lemma_exp_mark_index(s: Seq<char>)
    ensures
        exp_mark_index(s) <= s.len(),
        forall|i: int| 0 <= i < exp_mark_index(s) ==> !is_exp_mark(#[trigger] s[i]),
        exp_mark_index(s) < s.len() ==> is_exp_mark(s[exp_mark_index(s) as int]),
    decreases s.len(),
{
    if s.len() > 0 && !is_exp_mark(s[0]) {
        lemma_exp_mark_index(s.drop_first());
        assert forall|i: int| 0 <= i < exp_mark_index(s) implies !is_exp_mark(#[trigger] s[i]) by {
            if i > 0 {
                assert(s[i] == s.drop_first()[i - 1]);
            }
        }
    }
}

/// Whether `b[from..to]` is a mantissa.
fn mantissa_exec(b: &Vec<char>, from: usize, to: usize) -> (r: bool)
    requires
        from <= to <= b.len(),
    ensures
        r == is_mantissa(b@.subrange(from as int, to as int)),
{
    let ghost m = b@.subrange(from as int, to as int);
    let mut seen_dot = false;
    let mut seen_digit = false;
    let mut i = from;
    while i < to
        invariant
            from <= i <= to <= b.len(),
            m == b@.subrange(from as int, to as int),
            forall|j: int| 0 <= j < i - from ==> is_digit(#[trigger] m[j]) || m[j] == '.',
            seen_dot <==> exists|j: int| 0 <= j < i - from && #[trigger] m[j] == '.',
            forall|j: int, k: int| 0 <= j < i - from && 0 <= k < i - from && m[j] == '.' && m[k] == '.' ==> j == k,
            seen_digit <==> exists|j: int| 0 <= j < i - from && is_digit(#[trigger] m[j]),
        decreases to - i,
    {
        let c = b[i];
        assert(m[i - from] == c);
        if c == '.' {
            if seen_dot {
                let ghost j = choose|j: int| 0 <= j < i - from && #[trigger] m[j] == '.';
                assert(!(forall|j: int, k: int| 0 <= j < m.len() && 0 <= k < m.len() && m[j] == '.' && m[k] == '.' ==> j == k)) by {
                    assert(m[j] == '.' && m[i - from] == '.' && j != i - from);
                }
                return false;
            }
            seen_dot = true;
        } else if '0' <= c && c <= '9' {
            seen_digit = true;
        } else {
            assert(!(is_digit(m[i - from]) || m[i - from] == '.'));
            return false;
        }
        i = i + 1;
    }
    seen_digit
}

/// Whether `b[from..]` is an exponent.
fn exponent_exec(b: &Vec<char>, from: usize) -> (r: bool)
    requires
        from <= b.len(),
    ensures
        r == is_exponent(b@.skip(from as int)),
{
    let ghost x = b@.skip(from as int);
    if b.len() - from < 2 {
        return false;
    }
    if !(b[from] == 'e' || b[from] == 'E') {
        return false;
    }
    let start = if b[from + 1] == '+' || b[from + 1] == '-' { from + 2 } else { from + 1 };
    let ghost d = b@.skip(start as int);
    assert(d =~= (if is_sign(x[1]) { x.skip(2) } else { x.skip(1) }));
    assert(x.len() >= 2 && is_exp_mark(x[0]) && x[1] == b@[from + 1]);
    if start == b.len() {
        assert(d.len() == 0);
        return false;
    }
    let mut i = start;
    while i < b.len()
        invariant
            start <= i <= b.len(),
            d == b@.skip(start as int),
            x == b@.skip(from as int),
            x.len() >= 2 && is_exp_mark(x[0]),
            d == (if is_sign(x[1]) { x.skip(2) } else { x.skip(1) }),
            forall|j: int| 0 <= j < i - start ==> is_digit(#[trigger] d[j]),
        decreases b.len() - i,
    {
        if !('0' <= b[i] && b[i] <= '9') {
            assert(!is_digit(d[i - start]));
            return false;
        }
        i = i + 1;
    }
    true
}

/// Whether `str::parse::<f64>` accepts `s`.
pub fn is_float_literal(s: &str) -> (r: bool)
    ensures
        r == float_literal(s@),
{
    let b = chars_of(s);
    let from: usize = if b.len() > 0 && (b[0] == '+' || b[0] == '-') { 1 } else { 0 };
    let ghost body = if s@.len() > 0 && is_sign(s@[0]) { s@.drop_first() } else { s@ };
    assert(body =~= b@.skip(from as int));
    let inf = vec!['i', 'n', 'f'];
    let infinity = vec!['i', 'n', 'f', 'i', 'n', 'i', 't', 'y'];
    let nan = vec!['n', 'a', 'n'];
    assert(inf@ =~= seq!['i', 'n', 'f']);
    assert(infinity@ =~= seq!['i', 'n', 'f', 'i', 'n', 'i', 't', 'y']);
    assert(nan@ =~= seq!['n', 'a', 'n']);
    if spells_exec(&b, from, &inf) || spells_exec(&b, from, &infinity) || spells_exec(&b, from, &nan) {
        return true;
    }
    // the first exponent mark
    let mut k = from;
    while k < b.len() && !(b[k] == 'e' || b[k] == 'E')
        invariant
            from <= k <= b.len(),
            forall|j: int| from <= j < k ==> !is_exp_mark(#[trigger] b@[j]),
        decreases b.len() - k,
    {
        k = k + 1;
    }
    proof {
        lemma_exp_mark_index(body);
        let e = exp_mark_index(body) as int;
        if e < k - from {
            assert(body[e] == b@[from + e]);
        }
        if k - from < e {
            assert(body[k - from] == b@[k as int]);
        }
        assert(e == k - from);
        assert(body.take(e) =~= b@.subrange(from as int, k as int));
        assert(body.skip(e) =~= b@.skip(k as int));
    }
    mantissa_exec(&b, from, k) && (k == b.len() || exponent_exec(&b, k))
}


/// The character of a decimal digit.
pub open spec fn digit_char(d: nat) -> char {
    if d == 0 { '0' }
    else if d == 1 { '1' }
    else if d == 2 { '2' }
    else if d == 3 { '3' }
    else if d == 4 { '4' }
    else if d == 5 { '5' }
    else if d == 6 { '6' }
    else if d == 7 { '7' }
    else if d == 8 { '8' }
    else { '9' }
}

/// The decimal numeral of `n`, without leading zeros: how `{}` formats an
/// unsigned integer.
pub open spec fn decimal_numeral(n: nat) -> Seq<char>
    decreases n,
{
    if n < 10 {
        seq![digit_char(n)]
    } else {
        decimal_numeral(n / 10).push(digit_char(n % 10))
    }
}


/// The texts of `parts`, one after another.
pub open spec fn joined(parts: Seq<&str>) -> Seq<char> {
    parts.map_values(|p: &str| p@).flatten()
}

/// Joins texts into one `String`.
///
/// Calls `<[&str]>::concat`, documented to concatenate the slices in order
/// into a new `String`; the contract claims exactly that text.
#[verifier::external_body]
pub(crate) fn join_texts(parts: &Vec<&str>) -> (r: String)
    ensures
        r@ == joined(parts@),
{
    parts.concat()
}

/// The one-character text of the digit `d`.
pub(crate) fn digit_text(d: usize) -> (r: &'static str)
    requires
        d < 10,
    ensures
        r@ == seq![digit_char(d as nat)],
{
    let digits = "0123456789";
    proof {
        reveal_strlit("0123456789");
    }
    let r = digits.substring_char(d, d + 1);
    assert(r@ =~= seq![digit_char(d as nat)]);
    r
}

/// Appends the digits of the decimal numeral of `n` to `parts`.
pub(crate) fn push_decimal(n: usize, parts: &mut Vec<&'static str>)
    ensures
        joined(final(parts)@) == joined(old(parts)@) + decimal_numeral(n as nat),
    decreases n,
{
    broadcast use Seq::lemma_flatten_push;

    if n >= 10 {
        push_decimal(n / 10, parts);
    }
    let ghost before = parts@;
    let d = digit_text(n % 10);
    parts.push(d);
    assert(parts@.map_values(|p: &str| p@) =~= before.map_values(|p: &str| p@).push(d@));
    if n < 10 {
        assert(decimal_numeral(n as nat) == seq![digit_char(n as nat)]);
        assert(joined(parts@) =~= joined(before) + seq![digit_char(n as nat)]);
    } else {
        assert(decimal_numeral(n as nat) == decimal_numeral((n / 10) as nat).push(digit_char((n % 10) as nat)));
    }
}

} // verus!
