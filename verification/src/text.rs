//! Character-level string helpers with exact specifications.
//!
//! Strings are handled as sequences of `char`; every helper here states its
//! result over the `Seq<char>` view of its arguments.
use vstd::prelude::*;
use vstd::string::*;

verus! {

// ---------------------------------------------------------------------------
// Specifications
// ---------------------------------------------------------------------------

/// The Unicode `White_Space` property (the characters that `char::is_whitespace`
/// accepts and that `str::trim` removes).
pub open spec fn is_white_space(c: char) -> bool {
    let u = c as u32;
    ||| 0x09 <= u <= 0x0D
    ||| u == 0x20
    ||| u == 0x85
    ||| u == 0xA0
    ||| u == 0x1680
    ||| 0x2000 <= u <= 0x200A
    ||| u == 0x2028
    ||| u == 0x2029
    ||| u == 0x202F
    ||| u == 0x205F
    ||| u == 0x3000
}

/// Whether `c` is stripped: white space when `ws`, else exactly `ch`.
pub open spec fn strip_hit(c: char, ws: bool, ch: char) -> bool {
    if ws {
        is_white_space(c)
    } else {
        c == ch
    }
}

/// `s` without its leading stripped characters.
pub open spec fn strip_start(s: Seq<char>, ws: bool, ch: char) -> Seq<char>
    decreases s.len(),
{
    if s.len() > 0 && strip_hit(s[0], ws, ch) {
        strip_start(s.drop_first(), ws, ch)
    } else {
        s
    }
}

/// `s` without its trailing stripped characters.
pub open spec fn strip_end(s: Seq<char>, ws: bool, ch: char) -> Seq<char>
    decreases s.len(),
{
    if s.len() > 0 && strip_hit(s.last(), ws, ch) {
        strip_end(s.drop_last(), ws, ch)
    } else {
        s
    }
}

/// `str::trim`: leading and trailing white space removed.
pub open spec fn trim(s: Seq<char>) -> Seq<char> {
    strip_end(strip_start(s, true, ' '), true, ' ')
}

/// `str::trim_matches(ch)`: every leading and trailing `ch` removed.
pub open spec fn trim_char(s: Seq<char>, ch: char) -> Seq<char> {
    strip_end(strip_start(s, false, ch), false, ch)
}

/// `str::starts_with`.
pub open spec fn starts_with(s: Seq<char>, prefix: Seq<char>) -> bool {
    prefix.len() <= s.len() && s.subrange(0, prefix.len() as int) == prefix
}

/// `i` is the first position of `c` in `s`.
pub open spec fn is_first_index(s: Seq<char>, c: char, i: int) -> bool {
    &&& 0 <= i < s.len()
    &&& s[i] == c
    &&& forall|j: int| 0 <= j < i ==> s[j] != c
}

/// `i` is the last position of `c` in `s`.
pub open spec fn is_last_index(s: Seq<char>, c: char, i: int) -> bool {
    &&& 0 <= i < s.len()
    &&& s[i] == c
    &&& forall|j: int| i < j < s.len() ==> s[j] != c
}

/// The first position of `c` in `s`, or -1.
pub open spec fn first_index(s: Seq<char>, c: char) -> int {
    if s.contains(c) {
        choose|i: int| is_first_index(s, c, i)
    } else {
        -1
    }
}

/// The last position of `c` in `s`, or -1.
pub open spec fn last_index(s: Seq<char>, c: char) -> int {
    if s.contains(c) {
        choose|i: int| is_last_index(s, c, i)
    } else {
        -1
    }
}

/// `str::split_once(c)`.
pub open spec fn split_once(s: Seq<char>, c: char) -> Option<(Seq<char>, Seq<char>)> {
    let i = first_index(s, c);
    if i >= 0 {
        Some((s.take(i), s.skip(i + 1)))
    } else {
        None
    }
}

/// The text up to the first `c`, or all of it.
pub open spec fn until_char(s: Seq<char>, c: char) -> Seq<char> {
    if s.contains(c) {
        s.take(first_index(s, c))
    } else {
        s
    }
}

/// `s.split(c).nth(1)`: the piece after the first `c`, up to the second `c`
/// or the end.
pub open spec fn second_piece(s: Seq<char>, c: char) -> Option<Seq<char>> {
    let i = first_index(s, c);
    if i >= 0 {
        Some(until_char(s.skip(i + 1), c))
    } else {
        None
    }
}

/// `s.rsplit(c).next()`: the text after the last `c`, or all of `s`.
pub open spec fn last_piece(s: Seq<char>, c: char) -> Seq<char> {
    if s.contains(c) {
        s.skip(last_index(s, c) + 1)
    } else {
        s
    }
}

/// A line without the `'\r'` of a `"\r\n"` ending.
pub open spec fn strip_cr(l: Seq<char>) -> Seq<char> {
    if l.len() > 0 && l.last() == '\r' {
        l.drop_last()
    } else {
        l
    }
}

/// `str::lines`: pieces ended by `'\n'` or `"\r\n"`; the last ending is optional.
pub open spec fn lines(s: Seq<char>) -> Seq<Seq<char>>
    decreases s.len(),
{
    if s.len() == 0 {
        Seq::empty()
    } else if s.contains('\n') {
        let i = first_index(s, '\n');
        if 0 <= i < s.len() {
            seq![strip_cr(s.take(i))] + lines(s.skip(i + 1))
        } else {
            Seq::empty()
        }
    } else {
        seq![s]
    }
}

/// The character of a digit below 16 (lower-case letters above 9).
pub open spec fn digit_char(d: nat) -> char {
    if d < 10 {
        (48 + d) as char
    } else {
        (87 + d) as char
    }
}

/// Decimal notation of `n`, without leading zeros.
pub open spec fn decimal(n: nat) -> Seq<char>
    decreases n,
{
    if n < 10 {
        seq![digit_char(n)]
    } else {
        decimal(n / 10).push(digit_char(n % 10))
    }
}

/// Lower-case hexadecimal notation of `n`, without leading zeros (`{:x}`).
pub open spec fn hexadecimal(n: nat) -> Seq<char>
    decreases n,
{
    if n < 16 {
        seq![digit_char(n)]
    } else {
        hexadecimal(n / 16).push(digit_char(n % 16))
    }
}

/// Decimal notation of a signed integer (`{}` on `i32`/`i64`).
pub open spec fn signed_decimal(n: int) -> Seq<char> {
    if n < 0 {
        seq!['-'] + decimal((-n) as nat)
    } else {
        decimal(n as nat)
    }
}

// ---------------------------------------------------------------------------
// Lemmas
// ---------------------------------------------------------------------------

proof fn lemma_first_exists(s: Seq<char>, c: char, k: int)
    requires
        0 <= k < s.len(),
        s[k] == c,
    ensures
        exists|i: int| is_first_index(s, c, i),
    decreases k,
{
    if exists|j: int| 0 <= j < k && s[j] == c {
        let j = choose|j: int| 0 <= j < k && s[j] == c;
        lemma_first_exists(s, c, j);
    } else {
        assert(is_first_index(s, c, k));
    }
}

proof fn lemma_last_exists(s: Seq<char>, c: char, k: int)
    requires
        0 <= k < s.len(),
        s[k] == c,
    ensures
        exists|i: int| is_last_index(s, c, i),
    decreases s.len() - k,
{
    if exists|j: int| k < j < s.len() && s[j] == c {
        let j = choose|j: int| k < j < s.len() && s[j] == c;
        lemma_last_exists(s, c, j);
    } else {
        assert(is_last_index(s, c, k));
    }
}

/// The first position of a contained character exists and is unique.
pub proof fn lemma_first_index(s: Seq<char>, c: char)
    ensures
        s.contains(c) ==> is_first_index(s, c, first_index(s, c)),
        !s.contains(c) ==> first_index(s, c) == -1,
        forall|i: int| #[trigger] is_first_index(s, c, i) ==> i == first_index(s, c),
{
    if s.contains(c) {
        let k = choose|k: int| 0 <= k < s.len() && s[k] == c;
        lemma_first_exists(s, c, k);
        let f = first_index(s, c);
        assert(is_first_index(s, c, f));
        assert forall|i: int| #[trigger] is_first_index(s, c, i) implies i == f by {
            if i < f {
                assert(s[i] == c);
            } else if f < i {
                assert(s[f] == c);
            }
        }
    }
}

/// The last position of a contained character exists and is unique.
pub proof fn lemma_last_index(s: Seq<char>, c: char)
    ensures
        s.contains(c) ==> is_last_index(s, c, last_index(s, c)),
        !s.contains(c) ==> last_index(s, c) == -1,
        forall|i: int| #[trigger] is_last_index(s, c, i) ==> i == last_index(s, c),
{
    if s.contains(c) {
        let k = choose|k: int| 0 <= k < s.len() && s[k] == c;
        lemma_last_exists(s, c, k);
        let f = last_index(s, c);
        assert(is_last_index(s, c, f));
        assert forall|i: int| #[trigger] is_last_index(s, c, i) implies i == f by {
            if i < f {
                assert(s[f] == c);
            } else if f < i {
                assert(s[i] == c);
            }
        }
    }
}

proof fn lemma_digit_char_injective(a: nat, b: nat)
    requires
        a < 16,
        b < 16,
        digit_char(a) == digit_char(b),
    ensures
        a == b,
{
    assert(digit_char(a) as int == if a < 10 { 48 + a } else { 87 + a });
    assert(digit_char(b) as int == if b < 10 { 48 + b } else { 87 + b });
}

/// Different numbers have different hexadecimal notations.
pub proof fn lemma_hexadecimal_injective(a: nat, b: nat)
    requires
        hexadecimal(a) == hexadecimal(b),
    ensures
        a == b,
    decreases a,
{
    if a < 16 && b < 16 {
        let da = digit_char(a);
        let db = digit_char(b);
        assert(hexadecimal(a) == seq![da]);
        assert(hexadecimal(b) == seq![db]);
        assert(seq![da][0] == da);
        assert(seq![db][0] == db);
        assert(da == db);
        lemma_digit_char_injective(a, b);
    } else if a < 16 {
        assert(hexadecimal(b / 16).len() >= 1);
        assert(hexadecimal(b).len() >= 2);
    } else if b < 16 {
        assert(hexadecimal(a / 16).len() >= 1);
        assert(hexadecimal(a).len() >= 2);
    } else {
        let ha = hexadecimal(a);
        let hb = hexadecimal(b);
        assert(ha.last() == hb.last());
        lemma_digit_char_injective(a % 16, b % 16);
        assert(ha.drop_last() =~= hexadecimal(a / 16));
        assert(hb.drop_last() =~= hexadecimal(b / 16));
        lemma_hexadecimal_injective(a / 16, b / 16);
    }
}

/// Stripping the start leaves a suffix whose first character is not stripped.
pub proof fn lemma_strip_start_shape(s: Seq<char>, ws: bool, ch: char)
    ensures
        strip_start(s, ws, ch).len() <= s.len(),
        strip_start(s, ws, ch) == s.skip(s.len() - strip_start(s, ws, ch).len()),
        strip_start(s, ws, ch).len() > 0 ==> !strip_hit(strip_start(s, ws, ch)[0], ws, ch),
    decreases s.len(),
{
    if s.len() > 0 && strip_hit(s[0], ws, ch) {
        lemma_strip_start_shape(s.drop_first(), ws, ch);
        let r = strip_start(s.drop_first(), ws, ch);
        assert(s.drop_first().skip(s.len() - 1 - r.len()) =~= s.skip(s.len() - r.len()));
    } else {
        assert(s.skip(0) =~= s);
    }
}

/// Stripping the end leaves a prefix whose last character is not stripped.
pub proof fn lemma_strip_end_shape(s: Seq<char>, ws: bool, ch: char)
    ensures
        strip_end(s, ws, ch).len() <= s.len(),
        strip_end(s, ws, ch) == s.take(strip_end(s, ws, ch).len() as int),
        strip_end(s, ws, ch).len() > 0 ==> !strip_hit(strip_end(s, ws, ch).last(), ws, ch),
    decreases s.len(),
{
    if s.len() > 0 && strip_hit(s.last(), ws, ch) {
        lemma_strip_end_shape(s.drop_last(), ws, ch);
        let r = strip_end(s.drop_last(), ws, ch);
        assert(s.drop_last().take(r.len() as int) =~= s.take(r.len() as int));
    } else {
        assert(s.take(s.len() as int) =~= s);
    }
}

/// A character absent from `s` stays absent after stripping either end.
pub proof fn lemma_strip_keeps_out(s: Seq<char>, ws: bool, ch: char, c: char)
    requires
        !s.contains(c),
    ensures
        !strip_start(s, ws, ch).contains(c),
        !strip_end(s, ws, ch).contains(c),
{
    lemma_strip_start_shape(s, ws, ch);
    lemma_strip_end_shape(s, ws, ch);
    let a = strip_start(s, ws, ch);
    let b = strip_end(s, ws, ch);
    if a.contains(c) {
        let k = choose|k: int| 0 <= k < a.len() && a[k] == c;
        assert(s[k + s.len() - a.len()] == c);
    }
    if b.contains(c) {
        let k = choose|k: int| 0 <= k < b.len() && b[k] == c;
        assert(s[k] == c);
    }
}

/// No line of `lines(s)` holds a `'\n'`.
pub proof fn lemma_lines_no_newline(s: Seq<char>)
    ensures
        forall|i: int| 0 <= i < lines(s).len() ==> !(#[trigger] lines(s)[i]).contains('\n'),
    decreases s.len(),
{
    if s.len() > 0 && s.contains('\n') {
        let i = first_index(s, '\n');
        lemma_first_index(s, '\n');
        lemma_lines_no_newline(s.skip(i + 1));
        let head = strip_cr(s.take(i));
        assert(!head.contains('\n')) by {
            if head.contains('\n') {
                let k = choose|k: int| 0 <= k < head.len() && head[k] == '\n';
                assert(s[k] == '\n');
            }
        }
        assert forall|j: int| 0 <= j < lines(s).len() implies !(#[trigger] lines(s)[j]).contains(
            '\n',
        ) by {
            if j > 0 {
                assert(lines(s)[j] == lines(s.skip(i + 1))[j - 1]);
            }
        }
    }
}

// ---------------------------------------------------------------------------
// Executable helpers
// ---------------------------------------------------------------------------

/// Appends one character to a `String` (`String::push`).
#[verifier::external_body]
pub(crate) fn push_char(s: &mut String, c: char)
    ensures
        final(s)@ == old(s)@.push(c),
{
    s.push(c);
}

/// Appends a string slice to a `String`.
pub fn push_str(s: &mut String, t: &str)
    ensures
        final(s)@ == old(s)@ + t@,
{
    s.append(t);
}

/// Appends characters to a `String`.
pub fn push_chars(s: &mut String, v: &[char])
    ensures
        final(s)@ == old(s)@ + v@,
{
    let ghost start = s@;
    let mut i: usize = 0;
    while i < v.len()
        invariant
            i <= v@.len(),
            s@ == start + v@.subrange(0, i as int),
        decreases v@.len() - i,
    {
        push_char(s, v[i]);
        i = i + 1;
        assert(s@ =~= start + v@.subrange(0, i as int));
    }
    assert(v@.subrange(0, v@.len() as int) =~= v@);
}

/// The characters of a string slice, in order.
pub fn chars_of(s: &str) -> (v: Vec<char>)
    ensures
        v@ == s@,
{
    let mut v: Vec<char> = Vec::new();
    for c in it: s.chars()
        invariant
            v@ == it.seq().take(it.index() as int),
    {
        v.push(c);
        assert(v@ =~= it.seq().take(it.index() + 1));
    }
    assert(v@ =~= s@);
    v
}

/// A `String` holding exactly the given characters.
pub fn string_from_chars(v: &[char]) -> (s: String)
    ensures
        s@ == v@,
{
    let mut s = String::new();
    push_chars(&mut s, v);
    s
}

/// A `String` holding the characters of a string slice.
pub fn string_from_str(t: &str) -> (s: String)
    ensures
        s@ == t@,
{
    let mut s = String::new();
    push_str(&mut s, t);
    s
}

/// The elements of `v` from `a` up to `b`.
pub fn sub_chars(v: &[char], a: usize, b: usize) -> (r: Vec<char>)
    requires
        a <= b <= v@.len(),
    ensures
        r@ == v@.subrange(a as int, b as int),
{
    let mut r: Vec<char> = Vec::new();
    let mut i = a;
    while i < b
        invariant
            a <= i <= b <= v@.len(),
            r@ == v@.subrange(a as int, i as int),
        decreases b - i,
    {
        r.push(v[i]);
        i = i + 1;
        assert(r@ =~= v@.subrange(a as int, i as int));
    }
    r
}

/// Whether two character sequences are equal.
pub fn chars_eq(a: &[char], b: &[char]) -> (r: bool)
    ensures
        r == (a@ == b@),
{
    if a.len() != b.len() {
        return false;
    }
    let mut i: usize = 0;
    while i < a.len()
        invariant
            a@.len() == b@.len(),
            i <= a@.len(),
            forall|j: int| 0 <= j < i ==> a@[j] == b@[j],
        decreases a@.len() - i,
    {
        if a[i] != b[i] {
            return false;
        }
        i = i + 1;
    }
    assert(a@ =~= b@);
    true
}

/// Whether a character sequence equals a string slice.
pub fn chars_eq_str(a: &[char], s: &str) -> (r: bool)
    ensures
        r == (a@ == s@),
{
    let b = chars_of(s);
    chars_eq(a, b.as_slice())
}

/// `c.is_whitespace()`.
pub fn is_white_space_char(c: char) -> (r: bool)
    ensures
        r == is_white_space(c),
{
    let u = c as u32;
    (0x09 <= u && u <= 0x0D) || u == 0x20 || u == 0x85 || u == 0xA0 || u == 0x1680 || (0x2000
        <= u && u <= 0x200A) || u == 0x2028 || u == 0x2029 || u == 0x202F || u == 0x205F || u
        == 0x3000
}

fn hit(c: char, ws: bool, ch: char) -> (r: bool)
    ensures
        r == strip_hit(c, ws, ch),
{
    if ws {
        is_white_space_char(c)
    } else {
        c == ch
    }
}

/// Leading and trailing stripped characters removed.
pub fn strip(v: &[char], ws: bool, ch: char) -> (r: Vec<char>)
    ensures
        r@ == strip_end(strip_start(v@, ws, ch), ws, ch),
{
    let n = v.len();
    let mut i: usize = 0;
    assert(v@.subrange(0, n as int) =~= v@);
    while i < n && hit(v[i], ws, ch)
        invariant
            n == v@.len(),
            i <= n,
            strip_start(v@, ws, ch) == strip_start(v@.subrange(i as int, n as int), ws, ch),
        decreases n - i,
    {
        assert(v@.subrange(i as int, n as int).drop_first() =~= v@.subrange(
            i + 1,
            n as int,
        ));
        i = i + 1;
    }
    assert(strip_start(v@, ws, ch) == v@.subrange(i as int, n as int)) by {
        if i == n {
            assert(v@.subrange(i as int, n as int).len() == 0);
        }
    }
    let mut j: usize = n;
    while j > i && hit(v[j - 1], ws, ch)
        invariant
            n == v@.len(),
            i <= j <= n,
            strip_end(v@.subrange(i as int, n as int), ws, ch) == strip_end(
                v@.subrange(i as int, j as int),
                ws,
                ch,
            ),
        decreases j - i,
    {
        assert(v@.subrange(i as int, j as int).drop_last() =~= v@.subrange(
            i as int,
            j - 1,
        ));
        j = j - 1;
    }
    assert(strip_end(v@.subrange(i as int, n as int), ws, ch) == v@.subrange(
        i as int,
        j as int,
    )) by {
        if j == i {
            assert(v@.subrange(i as int, j as int).len() == 0);
        }
    }
    sub_chars(v, i, j)
}

/// `str::trim` on characters.
pub fn trim_chars(v: &[char]) -> (r: Vec<char>)
    ensures
        r@ == trim(v@),
{
    strip(v, true, ' ')
}

/// `str::trim_matches(ch)` on characters.
pub fn trim_char_chars(v: &[char], ch: char) -> (r: Vec<char>)
    ensures
        r@ == trim_char(v@, ch),
{
    strip(v, false, ch)
}

/// `str::starts_with` on characters.
pub fn starts_with_chars(v: &[char], prefix: &[char]) -> (r: bool)
    ensures
        r == starts_with(v@, prefix@),
{
    if prefix.len() > v.len() {
        return false;
    }
    let mut i: usize = 0;
    while i < prefix.len()
        invariant
            prefix@.len() <= v@.len(),
            i <= prefix@.len(),
            forall|j: int| 0 <= j < i ==> v@[j] == prefix@[j],
        decreases prefix@.len() - i,
    {
        if v[i] != prefix[i] {
            assert(v@.subrange(0, prefix@.len() as int)[i as int] != prefix@[i as int]);
            return false;
        }
        i = i + 1;
    }
    assert(v@.subrange(0, prefix@.len() as int) =~= prefix@);
    true
}

/// `str::starts_with` against a string slice.
pub fn starts_with_str(v: &[char], prefix: &str) -> (r: bool)
    ensures
        r == starts_with(v@, prefix@),
{
    let p = chars_of(prefix);
    starts_with_chars(v, p.as_slice())
}

/// The first position of `c`, if any.
pub fn find_char(v: &[char], c: char) -> (r: Option<usize>)
    ensures
        match r {
            Some(i) => i as int == first_index(v@, c) && is_first_index(v@, c, i as int),
            None => !v@.contains(c) && first_index(v@, c) == -1,
        },
{
    proof {
        lemma_first_index(v@, c);
    }
    let mut i: usize = 0;
    while i < v.len()
        invariant
            i <= v@.len(),
            forall|j: int| 0 <= j < i ==> v@[j] != c,
        decreases v@.len() - i,
    {
        if v[i] == c {
            assert(is_first_index(v@, c, i as int));
            return Some(i);
        }
        i = i + 1;
    }
    None
}

/// The last position of `c`, if any.
pub fn rfind_char(v: &[char], c: char) -> (r: Option<usize>)
    ensures
        match r {
            Some(i) => i as int == last_index(v@, c) && is_last_index(v@, c, i as int),
            None => !v@.contains(c) && last_index(v@, c) == -1,
        },
{
    proof {
        lemma_last_index(v@, c);
    }
    let mut i: usize = v.len();
    while i > 0
        invariant
            i <= v@.len(),
            forall|j: int| i <= j < v@.len() ==> v@[j] != c,
        decreases i,
    {
        if v[i - 1] == c {
            assert(is_last_index(v@, c, i - 1));
            return Some(i - 1);
        }
        i = i - 1;
    }
    None
}

/// `str::split_once(c)` on characters.
pub fn split_once_chars(v: &[char], c: char) -> (r: Option<(Vec<char>, Vec<char>)>)
    ensures
        match (r, split_once(v@, c)) {
            (Some((a, b)), Some((sa, sb))) => a@ == sa && b@ == sb,
            (None, None) => true,
            _ => false,
        },
{
    let n = v.len();
    match find_char(v, c) {
        Some(i) => {
            let a = sub_chars(v, 0, i);
            let b = sub_chars(v, i + 1, n);
            assert(a@ =~= v@.take(i as int));
            assert(b@ =~= v@.skip(i + 1));
            Some((a, b))
        },
        None => None,
    }
}

/// The text up to the first `c`, or all of it.
pub fn until_char_chars(v: &[char], c: char) -> (r: Vec<char>)
    ensures
        r@ == until_char(v@, c),
{
    match find_char(v, c) {
        Some(i) => {
            let a = sub_chars(v, 0, i);
            assert(a@ =~= v@.take(i as int));
            a
        },
        None => {
            let a = sub_chars(v, 0, v.len());
            assert(a@ =~= v@);
            a
        },
    }
}

/// `s.split(c).nth(1)` on characters.
pub fn second_piece_chars(v: &[char], c: char) -> (r: Option<Vec<char>>)
    ensures
        match (r, second_piece(v@, c)) {
            (Some(a), Some(sa)) => a@ == sa,
            (None, None) => true,
            _ => false,
        },
{
    let n = v.len();
    match find_char(v, c) {
        Some(i) => {
            let rest = sub_chars(v, i + 1, n);
            assert(rest@ =~= v@.skip(i + 1));
            Some(until_char_chars(rest.as_slice(), c))
        },
        None => None,
    }
}

/// `s.rsplit(c).next()` on characters.
pub fn last_piece_chars(v: &[char], c: char) -> (r: Vec<char>)
    ensures
        r@ == last_piece(v@, c),
{
    let n = v.len();
    match rfind_char(v, c) {
        Some(i) => {
            let a = sub_chars(v, i + 1, n);
            assert(a@ =~= v@.skip(i + 1));
            a
        },
        None => {
            let a = sub_chars(v, 0, v.len());
            assert(a@ =~= v@);
            a
        },
    }
}

/// The views of a sequence of character vectors.
pub open spec fn views(v: Seq<Vec<char>>) -> Seq<Seq<char>> {
    v.map_values(|x: Vec<char>| x@)
}

/// `str::lines` on characters.
pub fn lines_chars(v: &[char]) -> (r: Vec<Vec<char>>)
    ensures
        views(r@) == lines(v@),
{
    let mut out: Vec<Vec<char>> = Vec::new();
    let mut pos: usize = 0;
    let n = v.len();
    assert(v@.skip(0) =~= v@);
    assert(views(out@) + lines(v@) =~= lines(v@));
    while pos < n
        invariant
            n == v@.len(),
            pos <= n,
            lines(v@) == views(out@) + lines(v@.skip(pos as int)),
        decreases n - pos,
    {
        let rest = sub_chars(v, pos, n);
        assert(rest@ =~= v@.skip(pos as int));
        match find_char(rest.as_slice(), '\n') {
            Some(i) => {
                let mut line = sub_chars(rest.as_slice(), 0, i);
                assert(line@ =~= rest@.take(i as int));
                if i > 0 && line[i - 1] == '\r' {
                    line.pop();
                }
                assert(line@ == strip_cr(rest@.take(i as int))) by {
                    if i > 0 && rest@.take(i as int).last() == '\r' {
                        assert(line@ =~= rest@.take(i as int).drop_last());
                    }
                }
                assert(rest@.skip(i + 1) =~= v@.skip(pos + i + 1));
                let ghost old_out = views(out@);
                out.push(line);
                assert(views(out@) =~= old_out.push(line@));
                assert(lines(rest@) == seq![line@] + lines(rest@.skip(i + 1)));
                assert(old_out + lines(rest@) =~= views(out@) + lines(v@.skip(pos + i + 1)));
                pos = pos + i + 1;
            },
            None => {
                let ghost old_out = views(out@);
                out.push(rest);
                assert(views(out@) =~= old_out.push(rest@));
                assert(lines(rest@) == seq![rest@]);
                assert(v@.skip(n as int) =~= Seq::<char>::empty());
                assert(old_out + lines(rest@) =~= views(out@) + lines(v@.skip(n as int)));
                pos = n;
            },
        }
    }
    assert(v@.skip(n as int) =~= Seq::<char>::empty());
    assert(views(out@) + Seq::<Seq<char>>::empty() =~= views(out@));
    out
}

/// Appends the decimal notation of `n` (`{}` on `u64`).
pub fn push_decimal(s: &mut String, n: u64)
    ensures
        final(s)@ == old(s)@ + decimal(n as nat),
    decreases n,
{
    if n >= 10 {
        push_decimal(s, n / 10);
    }
    let d = (n % 10) as u8;
    push_char(s, (48u8 + d) as char);
    proof {
        assert(((48u8 + d) as char) == digit_char((n % 10) as nat));
        if n < 10 {
            assert(decimal(n as nat) == seq![digit_char(n as nat)]);
        } else {
            assert(decimal(n as nat) == decimal((n / 10) as nat).push(digit_char((n % 10) as nat)));
        }
    }
    assert(s@ =~= old(s)@ + decimal(n as nat));
}

/// Appends the lower-case hexadecimal notation of `n` (`{:x}` on `u64`).
pub fn push_hex(s: &mut String, n: u64)
    ensures
        final(s)@ == old(s)@ + hexadecimal(n as nat),
    decreases n,
{
    if n >= 16 {
        push_hex(s, n / 16);
    }
    let d = (n % 16) as u8;
    let c = if d < 10 {
        (48u8 + d) as char
    } else {
        (87u8 + d) as char
    };
    push_char(s, c);
    proof {
        assert(c == digit_char((n % 16) as nat));
        if n < 16 {
            assert(hexadecimal(n as nat) == seq![digit_char(n as nat)]);
        } else {
            assert(hexadecimal(n as nat) == hexadecimal((n / 16) as nat).push(
                digit_char((n % 16) as nat),
            ));
        }
    }
    assert(s@ =~= old(s)@ + hexadecimal(n as nat));
}

/// Appends the decimal notation of a signed integer.
pub fn push_signed_decimal(s: &mut String, n: i64)
    ensures
        final(s)@ == old(s)@ + signed_decimal(n as int),
{
    if n < 0 {
        push_char(s, '-');
        let m: u64 = if n == i64::MIN {
            9223372036854775808u64
        } else {
            (-n) as u64
        };
        push_decimal(s, m);
        assert(s@ =~= old(s)@ + signed_decimal(n as int));
    } else {
        push_decimal(s, n as u64);
    }
}

// ---------------------------------------------------------------------------
// Unicode case and class, from std
// ---------------------------------------------------------------------------

/// What `str::to_lowercase` returns for the given characters.
pub uninterp spec fn unicode_lowercase(s: Seq<char>) -> Seq<char>;

/// What `char::is_alphanumeric` returns for the given character.
pub uninterp spec fn unicode_alphanumeric(c: char) -> bool;

/// Calls `str::to_lowercase`: the Unicode lower-case mapping of the whole
/// string. The contract only names the result; the Unicode tables are not
/// restated here.
#[verifier::external_body]
pub(crate) fn to_lowercase(s: &str) -> (r: String)
    ensures
        r@ == unicode_lowercase(s@),
{
    s.to_lowercase()
}

/// Calls `char::is_alphanumeric` (Unicode `Alphabetic` or `Numeric`). The
/// contract only names the result; the Unicode tables are not restated.
#[verifier::external_body]
pub(crate) fn is_alphanumeric(c: char) -> (r: bool)
    ensures
        r == unicode_alphanumeric(c),
{
    c.is_alphanumeric()
}

} // verus!
