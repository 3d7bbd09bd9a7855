//! Character-level text utilities shared by the validators and formatters.
use vstd::prelude::*;
use vstd::string::*;

verus! {

/// The character for a decimal digit.
pub open spec fn digit_char(d: nat) -> char {
    ((d + 48) as u8) as char
}

/// The decimal representation of a natural number, without sign or leading zeros.
pub open spec fn decimal(n: nat) -> Seq<char>
    decreases n,
{
    if n < 10 {
        seq![digit_char(n)]
    } else {
        decimal(n / 10).push(digit_char(n % 10))
    }
}

/// Appends one character to a string (`String::push`).
#[verifier::external_body]
pub fn push_char(s: &mut String, c: char)
    ensures
        final(s)@ == old(s)@.push(c),
{
    s.push(c);
}

fn digit(d: u64) -> (c: char)
    requires
        d < 10,
    ensures
        c == digit_char(d as nat),
{
    let b: u8 = 48u8 + (d as u8);
    b as char
}

/// Appends the decimal representation of `n`.
pub fn write_decimal(s: &mut String, n: u64)
    ensures
        final(s)@ == old(s)@ + decimal(n as nat),
    decreases n,
{
    if n >= 10 {
        write_decimal(s, n / 10);
    }
    push_char(s, digit(n % 10));
}

/// The characters of a string slice.
pub fn chars_of(s: &str) -> (v: Vec<char>)
    ensures
        v@ == s@,
{
    let n: usize = s.unicode_len();
    let mut v: Vec<char> = Vec::new();
    let mut i: usize = 0;
    while i < n
        invariant
            n == s@.len(),
            i <= n,
            v@ == s@.take(i as int),
        decreases n - i,
    {
        v.push(s.get_char(i));
        i = i + 1;
    }
    v
}

} // verus!

verus! {

/// Equality of two string slices, character by character.
pub fn str_eq(a: &str, b: &str) -> (r: bool)
    ensures
        r == (a@ == b@),
{
    let va = chars_of(a);
    let vb = chars_of(b);
    if va.len() != vb.len() {
        return false;
    }
    let mut i: usize = 0;
    while i < va.len()
        invariant
            va@ == a@,
            vb@ == b@,
            va@.len() == vb@.len(),
            i <= va@.len(),
            forall|j: int| 0 <= j < i ==> va@[j] == vb@[j],
        decreases va@.len() - i,
    {
        if va[i] != vb[i] {
            return false;
        }
        i = i + 1;
    }
    assert(a@ =~= b@);
    true
}

/// A string made of the characters `v[from..to]`.
pub fn string_of(v: &Vec<char>, from: usize, to: usize) -> (s: String)
    requires
        from <= to <= v@.len(),
    ensures
        s@ == v@.subrange(from as int, to as int),
{
    let mut s = String::new();
    let mut i: usize = from;
    while i < to
        invariant
            from <= i <= to,
            to <= v@.len(),
            s@ == v@.subrange(from as int, i as int),
        decreases to - i,
    {
        push_char(&mut s, v[i]);
        assert(v@.subrange(from as int, i + 1) == v@.subrange(from as int, i as int).push(v@[i as int]));
        i = i + 1;
    }
    s
}

/// Unicode `White_Space`: the characters that `char::is_whitespace`, `str::trim`
/// and the regex class `\s` treat as white space.
pub open spec fn is_white(c: char) -> bool {
    let u = c as u32;
    (0x9 <= u <= 0xd) || u == 0x20 || u == 0x85 || u == 0xa0 || u == 0x1680 || (0x2000 <= u <= 0x200a)
        || u == 0x2028 || u == 0x2029 || u == 0x202f || u == 0x205f || u == 0x3000
}

pub fn is_white_char(c: char) -> (r: bool)
    ensures
        r == is_white(c),
{
    let u = c as u32;
    (0x9 <= u && u <= 0xd) || u == 0x20 || u == 0x85 || u == 0xa0 || u == 0x1680 || (0x2000 <= u && u <= 0x200a)
        || u == 0x2028 || u == 0x2029 || u == 0x202f || u == 0x205f || u == 0x3000
}

/// `s` without its leading white space.
pub open spec fn trim_start(s: Seq<char>) -> Seq<char>
    decreases s.len(),
{
    if s.len() > 0 && is_white(s[0]) {
        trim_start(s.drop_first())
    } else {
        s
    }
}

/// `s` without its trailing white space.
pub open spec fn trim_end(s: Seq<char>) -> Seq<char>
    decreases s.len(),
{
    if s.len() > 0 && is_white(s.last()) {
        trim_end(s.drop_last())
    } else {
        s
    }
}

/// `str::trim`: `s` without leading and trailing white space.
pub open spec fn trim(s: Seq<char>) -> Seq<char> {
    trim_end(trim_start(s))
}

proof fn lemma_trim_start_skip(s: Seq<char>, i: int)
    requires
        0 <= i <= s.len(),
        forall|j: int| 0 <= j < i ==> is_white(#[trigger] s[j]),
    ensures
        trim_start(s) == trim_start(s.skip(i)),
    decreases i,
{
    if i > 0 {
        assert(is_white(s[0]));
        assert(s.skip(1).skip(i - 1) =~= s.skip(i));
        assert(s.drop_first() =~= s.skip(1));
        lemma_trim_start_skip(s.drop_first(), i - 1);
    } else {
        assert(s.skip(0) =~= s);
    }
}

proof fn lemma_trim_end_take(s: Seq<char>, i: int)
    requires
        0 <= i <= s.len(),
        forall|j: int| i <= j < s.len() ==> is_white(#[trigger] s[j]),
    ensures
        trim_end(s) == trim_end(s.take(i)),
    decreases s.len() - i,
{
    if i < s.len() {
        assert(is_white(s[s.len() - 1]));
        assert(s.drop_last().take(i) =~= s.take(i));
        lemma_trim_end_take(s.drop_last(), i);
    } else {
        assert(s.take(i) =~= s);
    }
}

proof fn lemma_trim_start_first(s: Seq<char>)
    ensures
        trim_start(s).len() > 0 ==> !is_white(trim_start(s)[0]),
    decreases s.len(),
{
    if s.len() > 0 && is_white(s[0]) {
        lemma_trim_start_first(s.drop_first());
    }
}

proof fn lemma_trim_end_prefix(s: Seq<char>)
    ensures
        trim_end(s).len() <= s.len(),
        trim_end(s) =~= s.take(trim_end(s).len() as int),
        trim_end(s).len() > 0 ==> !is_white(trim_end(s).last()),
    decreases s.len(),
{
    if s.len() > 0 && is_white(s.last()) {
        lemma_trim_end_prefix(s.drop_last());
    }
}

/// A trimmed string, when not empty, neither starts nor ends with white
/// space.
pub proof fn lemma_trim_ends(s: Seq<char>)
    ensures
        trim(s).len() > 0 ==> !is_white(trim(s)[0]) && !is_white(trim(s).last()),
{
    lemma_trim_start_first(s);
    lemma_trim_end_prefix(trim_start(s));
    if trim(s).len() > 0 {
        assert(trim(s)[0] == trim_start(s)[0]);
    }
}

/// `str::trim`.
pub fn trim_str(s: &str) -> (r: String)
    ensures
        r@ == trim(s@),
{
    let v = chars_of(s);
    let n = v.len();
    let mut a: usize = 0;
    while a < n && is_white_char(v[a])
        invariant
            v@ == s@,
            n == v@.len(),
            a <= n,
            forall|j: int| 0 <= j < a ==> is_white(#[trigger] v@[j]),
        decreases n - a,
    {
        a = a + 1;
    }
    proof {
        lemma_trim_start_skip(v@, a as int);
        assert(trim_start(v@.skip(a as int)) == v@.skip(a as int));
    }
    let mut b: usize = n;
    while b > a && is_white_char(v[b - 1])
        invariant
            v@ == s@,
            n == v@.len(),
            a <= b <= n,
            forall|j: int| b <= j < n ==> is_white(#[trigger] v@[j]),
        decreases b,
    {
        b = b - 1;
    }
    proof {
        let t = v@.skip(a as int);
        lemma_trim_end_take(t, b - a);
        assert(t.take(b - a) =~= v@.subrange(a as int, b as int));
        let u = v@.subrange(a as int, b as int);
        if u.len() > 0 {
            assert(u.last() == v@[b - 1]);
        }
    }
    string_of(&v, a, b)
}

} // verus!

verus! {

/// ASCII lower-casing of one character; other characters are left as they are.
pub open spec fn ascii_lower_char(c: char) -> char {
    if 'A' <= c <= 'Z' {
        ((c as u32) + 32) as char
    } else {
        c
    }
}

/// ASCII lower-casing of a string.
pub open spec fn ascii_lower(s: Seq<char>) -> Seq<char> {
    s.map_values(|c: char| ascii_lower_char(c))
}

/// Whether `s`, lower-cased in ASCII, equals `w`.
pub fn ascii_lower_eq(s: &str, w: &str) -> (r: bool)
    ensures
        r == (ascii_lower(s@) == w@),
{
    let vs = chars_of(s);
    let vw = chars_of(w);
    if vs.len() != vw.len() {
        assert(ascii_lower(s@).len() == s@.len());
        return false;
    }
    let mut i: usize = 0;
    while i < vs.len()
        invariant
            vs@ == s@,
            vw@ == w@,
            vs@.len() == vw@.len(),
            i <= vs@.len(),
            forall|j: int| 0 <= j < i ==> ascii_lower_char(vs@[j]) == vw@[j],
        decreases vs@.len() - i,
    {
        let c = vs[i];
        let l: char = if 'A' <= c && c <= 'Z' { ((c as u32) + 32) as u8 as char } else { c };
        assert(l == ascii_lower_char(c));
        if l != vw[i] {
            assert(ascii_lower(s@)[i as int] != w@[i as int]);
            return false;
        }
        i = i + 1;
    }
    assert(ascii_lower(s@) =~= w@);
    true
}

pub open spec fn is_digit(c: char) -> bool {
    '0' <= c <= '9'
}

pub open spec fn all_digits(d: Seq<char>) -> bool {
    forall|i: int| 0 <= i < d.len() ==> is_digit(#[trigger] d[i])
}

/// The number that a string of decimal digits denotes.
pub open spec fn digits_value(d: Seq<char>) -> nat
    decreases d.len(),
{
    if d.len() == 0 {
        0
    } else {
        digits_value(d.drop_last()) * 10 + ((d.last() as u32) - 48) as nat
    }
}

/// The integer a string denotes under `str::parse` for Rust's integer
/// types: an optional sign, then at least one ASCII digit, nothing else.
pub open spec fn parse_int(s: Seq<char>) -> Option<int> {
    if s.len() > 0 && (s[0] == '+' || s[0] == '-') {
        let d = s.drop_first();
        if d.len() > 0 && all_digits(d) {
            Some(if s[0] == '-' { -(digits_value(d) as int) } else { digits_value(d) as int })
        } else {
            None
        }
    } else if s.len() > 0 && all_digits(s) {
        Some(digits_value(s) as int)
    } else {
        None
    }
}

/// `str::parse::<i64>`.
pub open spec fn parse_i64(s: Seq<char>) -> Option<i64> {
    match parse_int(s) {
        Some(v) => if i64::MIN <= v <= i64::MAX { Some(v as i64) } else { None },
        None => None,
    }
}

proof fn lemma_digits_value_grows(d: Seq<char>, i: int)
    requires
        0 <= i <= d.len(),
        all_digits(d),
    ensures
        digits_value(d.take(i)) <= digits_value(d),
    decreases d.len() - i,
{
    if i < d.len() {
        assert(d.drop_last().take(i) =~= d.take(i));
        assert(all_digits(d.drop_last()));
        lemma_digits_value_grows(d.drop_last(), i);
    } else {
        assert(d.take(i) =~= d);
    }
}

/// The value of the digits `v[from..]`, or `None` once it passes `limit`
/// (or a character is not a digit, or there is none).
fn digits_up_to(v: &Vec<char>, from: usize, limit: u64) -> (r: Option<u64>)
    requires
        from <= v@.len(),
        limit >= 9,
    ensures
        match r {
            Some(x) => {
                &&& v@.skip(from as int).len() > 0
                &&& all_digits(v@.skip(from as int))
                &&& x == digits_value(v@.skip(from as int))
                &&& x <= limit
            },
            None => !(v@.skip(from as int).len() > 0 && all_digits(v@.skip(from as int))
                && digits_value(v@.skip(from as int)) <= limit),
        },
{
    let ghost d = v@.skip(from as int);
    if from == v.len() {
        return None;
    }
    let mut acc: u64 = 0;
    let mut i: usize = from;
    while i < v.len()
        invariant
            from <= i <= v@.len(),
            d == v@.skip(from as int),
            all_digits(d.take(i - from)),
            acc == digits_value(d.take(i - from)),
            acc <= limit,
            limit >= 9,
        decreases v@.len() - i,
    {
        let c = v[i];
        if !('0' <= c && c <= '9') {
            assert(!is_digit(d[i - from]));
            return None;
        }
        let dv: u64 = ((c as u32) - 48) as u64;
        assert(d.take(i - from + 1).drop_last() =~= d.take(i - from));
        if acc > (limit - dv) / 10 {
            proof {
                assert(all_digits(d.take(i - from + 1)));
                assert(digits_value(d.take(i - from + 1)) == acc * 10 + dv) by (nonlinear_arith)
                    requires
                        digits_value(d.take(i - from + 1)) == digits_value(d.take(i - from)) * 10 + dv,
                        acc == digits_value(d.take(i - from));
                assert(acc * 10 + dv > limit) by (nonlinear_arith)
                    requires
                        acc > (limit - dv) / 10, dv <= 9, limit >= 9;
                if all_digits(d) {
                    lemma_digits_value_grows(d, i - from + 1);
                }
            }
            return None;
        }
        assert(acc * 10 + dv <= limit) by (nonlinear_arith)
            requires
                acc <= (limit - dv) / 10, dv <= limit;
        acc = acc * 10 + dv;
        assert(all_digits(d.take(i - from + 1)));
        i = i + 1;
    }
    assert(d.take(i - from) =~= d);
    Some(acc)
}

/// `str::parse::<i64>`.
pub fn parse_i64_str(s: &str) -> (r: Option<i64>)
    ensures
        r == parse_i64(s@),
{
    let v = chars_of(s);
    if v.len() == 0 {
        return None;
    }
    if v[0] == '-' {
        assert(v@.skip(1) =~= s@.drop_first());
        match digits_up_to(&v, 1, 9223372036854775808u64) {
            Some(x) => {
                if x == 9223372036854775808u64 {
                    Some(-9223372036854775807i64 - 1)
                } else {
                    Some(-(x as i64))
                }
            },
            None => None,
        }
    } else if v[0] == '+' {
        assert(v@.skip(1) =~= s@.drop_first());
        match digits_up_to(&v, 1, 9223372036854775807u64) {
            Some(x) => Some(x as i64),
            None => None,
        }
    } else {
        assert(v@.skip(0) =~= s@);
        match digits_up_to(&v, 0, 9223372036854775807u64) {
            Some(x) => Some(x as i64),
            None => None,
        }
    }
}

} // verus!

verus! {

/// `n` in decimal, left-padded with zeros to at least `width` characters
/// (`format!("{:0width$}", n)`).
pub open spec fn padded(n: nat, width: nat) -> Seq<char> {
    Seq::new(zeros_needed(n, width), |i: int| '0') + decimal(n)
}

/// How many zeros `padded` puts in front.
pub open spec fn zeros_needed(n: nat, width: nat) -> nat {
    if width > decimal(n).len() { (width - decimal(n).len()) as nat } else { 0 }
}

pub proof fn lemma_decimal_nonempty(n: nat)
    ensures
        decimal(n).len() >= 1,
    decreases n,
{
    if n >= 10 {
        lemma_decimal_nonempty(n / 10);
    }
}

/// Appends `n` in decimal, left-padded with zeros to `width` characters.
pub fn write_padded(s: &mut String, n: u64, width: usize)
    ensures
        final(s)@ == old(s)@ + padded(n as nat, width as nat),
{
    let mut digits = String::new();
    write_decimal(&mut digits, n);
    let len = digits.as_str().unicode_len();
    let ghost start = s@;
    let mut k: usize = len;
    while k < width
        invariant
            len == decimal(n as nat).len(),
            len <= k,
            k <= width || (k == len && len > width),
            s@ == start + Seq::new((k - len) as nat, |i: int| '0'),
        decreases width - k,
    {
        let ghost before = s@;
        push_char(s, '0');
        assert(s@ =~= start + Seq::new((k + 1 - len) as nat, |i: int| '0'));
        k = k + 1;
    }
    assert(Seq::new((k - len) as nat, |i: int| '0') =~= Seq::new(zeros_needed(n as nat, width as nat), |i: int| '0'));
    s.append(digits.as_str());
}

} // verus!

verus! {

/// The pieces of `s` between occurrences of `sep` so far, and the piece
/// being read (left to right).
pub open spec fn split_acc(s: Seq<char>, sep: char) -> (Seq<Seq<char>>, Seq<char>)
    decreases s.len(),
{
    if s.len() == 0 {
        (Seq::empty(), Seq::empty())
    } else {
        let (done, cur) = split_acc(s.drop_last(), sep);
        if s.last() == sep {
            (done.push(cur), Seq::empty())
        } else {
            (done, cur.push(s.last()))
        }
    }
}

/// `str::split(sep)`: the pieces between separators, empty pieces included.
pub open spec fn split_on(s: Seq<char>, sep: char) -> Seq<Seq<char>> {
    split_acc(s, sep).0.push(split_acc(s, sep).1)
}

pub open spec fn strings_view(v: Seq<String>) -> Seq<Seq<char>> {
    v.map_values(|s: String| s@)
}

/// `str::split(sep)`.
pub fn split_str(s: &str, sep: char) -> (r: Vec<String>)
    ensures
        strings_view(r@) == split_on(s@, sep),
{
    let v = chars_of(s);
    let mut done: Vec<String> = Vec::new();
    let mut cur = String::new();
    let mut i: usize = 0;
    assert(v@.take(0) =~= Seq::<char>::empty());
    assert(strings_view(done@) =~= Seq::<Seq<char>>::empty());
    while i < v.len()
        invariant
            v@ == s@,
            i <= v@.len(),
            (strings_view(done@), cur@) == split_acc(v@.take(i as int), sep),
        decreases v@.len() - i,
    {
        assert(v@.take(i + 1).drop_last() =~= v@.take(i as int));
        if v[i] == sep {
            let piece = cur;
            cur = String::new();
            let ghost before = done@;
            done.push(piece);
            assert(strings_view(done@) =~= strings_view(before).push(piece@));
        } else {
            push_char(&mut cur, v[i]);
        }
        i = i + 1;
    }
    assert(v@.take(i as int) =~= s@);
    let ghost before = done@;
    done.push(cur);
    assert(strings_view(done@) =~= strings_view(before).push(cur@));
    done
}

/// The white-space separated words of `s` read so far, and the word being read.
pub open spec fn words_acc(s: Seq<char>) -> (Seq<Seq<char>>, Seq<char>)
    decreases s.len(),
{
    if s.len() == 0 {
        (Seq::empty(), Seq::empty())
    } else {
        let (done, cur) = words_acc(s.drop_last());
        if is_white(s.last()) {
            (if cur.len() > 0 { done.push(cur) } else { done }, Seq::empty())
        } else {
            (done, cur.push(s.last()))
        }
    }
}

/// `str::split_whitespace`: the maximal runs of non-white characters.
pub open spec fn words(s: Seq<char>) -> Seq<Seq<char>> {
    let (done, cur) = words_acc(s);
    if cur.len() > 0 { done.push(cur) } else { done }
}

/// `str::split_whitespace`.
pub fn split_words(s: &str) -> (r: Vec<String>)
    ensures
        strings_view(r@) == words(s@),
{
    let v = chars_of(s);
    let mut done: Vec<String> = Vec::new();
    let mut cur = String::new();
    let mut i: usize = 0;
    assert(v@.take(0) =~= Seq::<char>::empty());
    assert(strings_view(done@) =~= Seq::<Seq<char>>::empty());
    while i < v.len()
        invariant
            v@ == s@,
            i <= v@.len(),
            (strings_view(done@), cur@) == words_acc(v@.take(i as int)),
        decreases v@.len() - i,
    {
        assert(v@.take(i + 1).drop_last() =~= v@.take(i as int));
        if is_white_char(v[i]) {
            if cur.as_str().unicode_len() > 0 {
                let piece = cur;
                let ghost before = done@;
                done.push(piece);
                assert(strings_view(done@) =~= strings_view(before).push(piece@));
            }
            cur = String::new();
        } else {
            push_char(&mut cur, v[i]);
        }
        i = i + 1;
    }
    assert(v@.take(i as int) =~= s@);
    if cur.as_str().unicode_len() > 0 {
        let ghost before = done@;
        done.push(cur);
        assert(strings_view(done@) =~= strings_view(before).push(cur@));
    }
    done
}

} // verus!

verus! {

/// `i64::to_string`: an optional minus sign, then the decimal digits.
pub open spec fn signed_decimal(v: int) -> Seq<char> {
    if v < 0 { seq!['-'] + decimal((-v) as nat) } else { decimal(v as nat) }
}

/// Appends `v` in decimal with its sign.
pub fn write_i64(s: &mut String, v: i64)
    ensures
        final(s)@ == old(s)@ + signed_decimal(v as int),
{
    if v < 0 {
        push_char(s, '-');
        let m: u64 = if v == i64::MIN { 9223372036854775808u64 } else { (-v) as u64 };
        let ghost mid = s@;
        write_decimal(s, m);
        assert(s@ =~= old(s)@ + signed_decimal(v as int));
    } else {
        write_decimal(s, v as u64);
    }
}

/// `str::parse` for an unsigned integer type whose largest value is `max`:
/// an optional `+`, then at least one ASCII digit, the value at most `max`.
pub open spec fn parse_unsigned(s: Seq<char>, max: int) -> Option<int> {
    if s.len() > 0 && s[0] == '-' {
        None
    } else {
        match parse_int(s) {
            Some(v) => if v <= max { Some(v) } else { None },
            None => None,
        }
    }
}

/// `str::parse` for an unsigned integer type whose largest value is `max`
/// (at least 9, as for every unsigned type of Rust).
pub fn parse_unsigned_str(s: &str, max: u64) -> (r: Option<u64>)
    requires
        max >= 9,
    ensures
        match r {
            Some(v) => parse_unsigned(s@, max as int) == Some(v as int),
            None => parse_unsigned(s@, max as int) is None,
        },
{
    let v = chars_of(s);
    if v.len() == 0 {
        return None;
    }
    if v[0] == '-' {
        return None;
    }
    if v[0] == '+' {
        assert(v@.skip(1) =~= s@.drop_first());
        digits_up_to(&v, 1, max)
    } else {
        assert(v@.skip(0) =~= s@);
        digits_up_to(&v, 0, max)
    }
}

/// Decimal text reads back as its number: `decimal` is all digits and
/// `digits_value` inverts it.
pub proof fn lemma_decimal_reads_back(n: nat)
    ensures
        decimal(n).len() >= 1,
        all_digits(decimal(n)),
        digits_value(decimal(n)) == n,
    decreases n,
{
    let c = digit_char(n % 10);
    assert((c as u32) - 48 == n % 10) by {
        assert(n % 10 < 10);
    }
    if n >= 10 {
        lemma_decimal_reads_back(n / 10);
        let d = decimal(n);
        assert(d.drop_last() =~= decimal(n / 10));
        assert(d.last() == c);
        assert(digits_value(d) == digits_value(d.drop_last()) * 10 + ((d.last() as u32) - 48) as nat);
        assert(n == (n / 10) * 10 + n % 10);
    } else {
        let d = decimal(n);
        assert(d.drop_last() =~= Seq::<char>::empty());
        assert(d.last() == c);
        assert(digits_value(d) == digits_value(d.drop_last()) * 10 + ((d.last() as u32) - 48) as nat);
        assert(n % 10 == n);
    }
}

/// `i64::to_string` reads back under `str::parse::<i64>`.
pub proof fn lemma_signed_decimal_parses(v: i64)
    ensures
        parse_i64(signed_decimal(v as int)) == Some(v),
{
    if v < 0 {
        let m = (-(v as int)) as nat;
        lemma_decimal_reads_back(m);
        let s = signed_decimal(v as int);
        assert(s.drop_first() =~= decimal(m));
    } else {
        lemma_decimal_reads_back(v as nat);
        let d = decimal(v as nat);
        assert(is_digit(d[0]));
    }
}

/// `a` comes before `b` in the order of their characters: at the first place
/// where they differ, `a` has the smaller character.
pub open spec fn text_lt(a: Seq<char>, b: Seq<char>) -> bool {
    exists|i: int| 0 <= i < a.len() && i < b.len() && a.take(i) == b.take(i) && #[trigger] a[i] < #[trigger] b[i]
}

/// `a` is `b` or comes before it.
pub open spec fn text_le(a: Seq<char>, b: Seq<char>) -> bool {
    a == b || text_lt(a, b)
}

pub open spec fn pow10(w: nat) -> nat
    decreases w,
{
    if w == 0 { 1 } else { 10 * pow10((w - 1) as nat) }
}

/// The last `w` decimal digits of `n`, most significant first.
pub open spec fn digits_of(n: nat, w: nat) -> Seq<char>
    decreases w,
{
    if w == 0 {
        Seq::empty()
    } else {
        digits_of(n / 10, (w - 1) as nat).push(digit_char(n % 10))
    }
}

proof fn lemma_zero_digits(w: nat)
    ensures
        digits_of(0, w) == Seq::new(w, |i: int| '0'),
    decreases w,
{
    if w > 0 {
        lemma_zero_digits((w - 1) as nat);
        assert(digits_of(0, w) =~= Seq::new(w, |i: int| '0'));
    } else {
        assert(digits_of(0, w) =~= Seq::new(w, |i: int| '0'));
    }
}

/// A number below `10^w` padded to `w` places is its `w` last digits.
pub proof fn lemma_padded_digits(n: nat, w: nat)
    requires
        w >= 1,
        n < pow10(w),
    ensures
        padded(n, w) == digits_of(n, w),
        decimal(n).len() <= w,
    decreases w,
{
    lemma_decimal_nonempty(n);
    if n < 10 {
        lemma_zero_digits((w - 1) as nat);
        assert(decimal(n) =~= seq![digit_char(n % 10)]);
        assert(padded(n, w) =~= digits_of(n, w));
    } else {
        assert(w >= 2) by {
            if w == 1 { reveal_with_fuel(pow10, 2); assert(pow10(1) == 10); }
        }
        assert(n / 10 < pow10((w - 1) as nat));
        lemma_padded_digits(n / 10, (w - 1) as nat);
        assert(decimal(n) == decimal(n / 10).push(digit_char(n % 10)));
        assert(padded(n, w) =~= padded(n / 10, (w - 1) as nat).push(digit_char(n % 10)));
    }
}

proof fn lemma_digits_len(n: nat, w: nat)
    ensures
        digits_of(n, w).len() == w,
    decreases w,
{
    if w > 0 {
        lemma_digits_len(n / 10, (w - 1) as nat);
    }
}

/// Smaller numbers have smaller digits of the same width.
pub proof fn lemma_digits_order(n1: nat, n2: nat, w: nat)
    requires
        n1 < n2 < pow10(w),
    ensures
        text_lt(digits_of(n1, w), digits_of(n2, w)),
    decreases w,
{
    assert(w >= 1) by {
        if w == 0 { assert(pow10(0) == 1); }
    }
    let v = (w - 1) as nat;
    lemma_digits_len(n1 / 10, v);
    lemma_digits_len(n2 / 10, v);
    let a = digits_of(n1, w);
    let b = digits_of(n2, w);
    if n1 / 10 < n2 / 10 {
        assert(n2 / 10 < pow10(v));
        lemma_digits_order(n1 / 10, n2 / 10, v);
        let p = digits_of(n1 / 10, v);
        let q = digits_of(n2 / 10, v);
        let i = choose|i: int| 0 <= i < p.len() && i < q.len() && p.take(i) == q.take(i) && #[trigger] p[i] < #[trigger] q[i];
        assert(a.take(i) =~= p.take(i));
        assert(b.take(i) =~= q.take(i));
        assert(a[i] == p[i] && b[i] == q[i]);
        assert(a[i] < b[i]);
    } else {
        assert(n1 / 10 == n2 / 10);
        assert(n1 % 10 < n2 % 10);
        let p = digits_of(n1 / 10, v);
        assert(a.take(v as int) =~= p);
        assert(b.take(v as int) =~= p);
        let c1 = digit_char(n1 % 10);
        let c2 = digit_char(n2 % 10);
        assert(c1 < c2);
        assert(a[v as int] == c1 && b[v as int] == c2);
        assert(a[v as int] < b[v as int]);
    }
}

/// Padded numbers below `10^w` have `w` characters and compare as the
/// numbers do.
pub proof fn lemma_padded_order(n1: nat, n2: nat, w: nat)
    requires
        w >= 1,
        n1 <= n2 < pow10(w),
    ensures
        padded(n1, w).len() == w,
        padded(n2, w).len() == w,
        n1 < n2 ==> text_lt(padded(n1, w), padded(n2, w)),
{
    lemma_padded_digits(n1, w);
    lemma_padded_digits(n2, w);
    lemma_digits_len(n1, w);
    lemma_digits_len(n2, w);
    if n1 < n2 {
        lemma_digits_order(n1, n2, w);
    }
}

/// A difference inside equal-length middles decides the order of the whole.
pub proof fn lemma_text_lt_middle(p: Seq<char>, a1: Seq<char>, a2: Seq<char>, s1: Seq<char>, s2: Seq<char>)
    requires
        text_lt(a1, a2),
        a1.len() == a2.len(),
    ensures
        text_lt(p + a1 + s1, p + a2 + s2),
{
    let i = choose|i: int| 0 <= i < a1.len() && i < a2.len() && a1.take(i) == a2.take(i) && #[trigger] a1[i] < #[trigger] a2[i];
    let x = p + a1 + s1;
    let y = p + a2 + s2;
    let j = p.len() + i;
    assert(x.take(j) =~= p + a1.take(i));
    assert(y.take(j) =~= p + a2.take(i));
    assert(x[j] == a1[i] && y[j] == a2[i]);
}

} // verus!
