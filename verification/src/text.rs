//! Text helpers shared by the whole crate.
//!
//! Every contract in this crate speaks of strings through their view, a
//! `Seq<char>`.  This module holds the few spec functions those contracts are
//! built from (splitting, joining, trimming) and the executable functions
//! that compute them.

use vstd::prelude::*;
use vstd::string::StringExecFns;
use itertools::Itertools;

verus! {

/// `str`'s `==` compares the two texts character by character, as std documents.
pub assume_specification[ <str as PartialEq>::eq ](a: &str, b: &str) -> (r: bool)
    ensures
        r == (a@ == b@),
;

/// The views of a sequence of strings.
pub open spec fn views(v: Seq<String>) -> Seq<Seq<char>> {
    Seq::new(v.len(), |i: int| v[i]@)
}

/// The views of a sequence of string slices.
pub open spec fn slice_views(v: Seq<&str>) -> Seq<Seq<char>> {
    Seq::new(v.len(), |i: int| v[i]@)
}

/// The pieces of `s` between the occurrences of `sep`: one more piece than
/// there are separators, none of which holds a separator.
pub open spec fn split_spec(s: Seq<char>, sep: char) -> Seq<Seq<char>>
    decreases s.len(),
{
    if s.len() == 0 {
        seq![Seq::<char>::empty()]
    } else {
        let init = split_spec(s.drop_last(), sep);
        if s.last() == sep {
            init.push(Seq::<char>::empty())
        } else {
            init.update(init.len() - 1, init.last().push(s.last()))
        }
    }
}

/// The pieces laid end to end with `sep` between each two of them.
pub open spec fn join_spec(parts: Seq<Seq<char>>, sep: Seq<char>) -> Seq<char>
    decreases parts.len(),
{
    if parts.len() == 0 {
        Seq::<char>::empty()
    } else if parts.len() == 1 {
        parts[0]
    } else {
        join_spec(parts.drop_last(), sep) + sep + parts.last()
    }
}

/// A line as `str::lines` hands it out: the piece before a line feed loses a
/// carriage return that ends it.
pub open spec fn strip_cr(line: Seq<char>) -> Seq<char> {
    if line.len() > 0 && line.last() == '\r' {
        line.drop_last()
    } else {
        line
    }
}

/// The lines of a text: the pieces between line feeds, where a piece that a
/// line feed ends loses its closing carriage return and an empty last piece
/// is no line.
pub open spec fn lines_spec(s: Seq<char>) -> Seq<Seq<char>> {
    let pieces = split_spec(s, '\n');
    let last = pieces.len() - 1;
    let kept = if pieces[last].len() == 0 { last } else { last + 1 };
    Seq::new(kept as nat, |i: int| if i < last { strip_cr(pieces[i]) } else { pieces[i] })
}

/// White space as `char::is_whitespace` knows it.
pub open spec fn is_space(c: char) -> bool {
    let n = c as u32;
    ||| 0x09 <= n <= 0x0D
    ||| n == 0x20
    ||| n == 0x85
    ||| n == 0xA0
    ||| n == 0x1680
    ||| 0x2000 <= n <= 0x200A
    ||| n == 0x2028
    ||| n == 0x2029
    ||| n == 0x202F
    ||| n == 0x205F
    ||| n == 0x3000
}

/// Index of the first character at or after `from` that is no white space,
/// or the length.
pub open spec fn skip_spaces_spec(s: Seq<char>, from: int) -> int
    decreases s.len() - from,
{
    if from < 0 || from >= s.len() {
        s.len() as int
    } else if is_space(s[from]) {
        skip_spaces_spec(s, from + 1)
    } else {
        from
    }
}

/// Index of the first white space at or after `from`, or the length.
pub open spec fn skip_word_spec(s: Seq<char>, from: int) -> int
    decreases s.len() - from,
{
    if from < 0 || from >= s.len() {
        s.len() as int
    } else if is_space(s[from]) {
        from
    } else {
        skip_word_spec(s, from + 1)
    }
}

/// Index of the first `c` at or after `from`, or the length.
pub open spec fn find_spec(s: Seq<char>, c: char, from: int) -> int
    decreases s.len() - from,
{
    if from < 0 || from >= s.len() {
        s.len() as int
    } else if s[from] == c {
        from
    } else {
        find_spec(s, c, from + 1)
    }
}

/// Length of `s` once the white space at its end is gone.
pub open spec fn trimmed_end_spec(s: Seq<char>) -> int
    decreases s.len(),
{
    if s.len() > 0 && is_space(s.last()) {
        trimmed_end_spec(s.drop_last())
    } else {
        s.len() as int
    }
}

/// `s` without the white space at its two ends.
pub open spec fn trim_spec(s: Seq<char>) -> Seq<char> {
    let start = skip_spaces_spec(s, 0);
    if start >= s.len() {
        Seq::<char>::empty()
    } else {
        s.subrange(start, trimmed_end_spec(s))
    }
}

/// What `skip_spaces_spec` finds: the first place that holds no white
/// space.
pub proof fn lemma_skip_spaces_bounds(s: Seq<char>, from: int)
    requires
        0 <= from <= s.len(),
    ensures
        from <= skip_spaces_spec(s, from) <= s.len(),
        forall|j: int| from <= j < skip_spaces_spec(s, from) ==> is_space(#[trigger] s[j]),
        skip_spaces_spec(s, from) < s.len() ==> !is_space(s[skip_spaces_spec(s, from)]),
    decreases s.len() - from,
{
    if from < s.len() && is_space(s[from]) {
        lemma_skip_spaces_bounds(s, from + 1);
    }
}

/// What `find_spec` finds: the first place that holds the character.
pub proof fn lemma_find_bounds(s: Seq<char>, c: char, from: int)
    requires
        0 <= from <= s.len(),
    ensures
        from <= find_spec(s, c, from) <= s.len(),
        forall|j: int| from <= j < find_spec(s, c, from) ==> #[trigger] s[j] != c,
        find_spec(s, c, from) < s.len() ==> s[find_spec(s, c, from)] == c,
    decreases s.len() - from,
{
    if from < s.len() && s[from] != c {
        lemma_find_bounds(s, c, from + 1);
    }
}

/// What `trimmed_end_spec` finds: the end of the last character that is no
/// white space.
pub proof fn lemma_trimmed_end_bounds(s: Seq<char>)
    ensures
        0 <= trimmed_end_spec(s) <= s.len(),
        trimmed_end_spec(s) > 0 ==> !is_space(s[trimmed_end_spec(s) - 1]),
        forall|j: int| trimmed_end_spec(s) <= j < s.len() ==> is_space(#[trigger] s[j]),
    decreases s.len(),
{
    if s.len() > 0 && is_space(s.last()) {
        lemma_trimmed_end_bounds(s.drop_last());
        assert(trimmed_end_spec(s) == trimmed_end_spec(s.drop_last()));
        assert forall|j: int| trimmed_end_spec(s) <= j < s.len() implies is_space(
            #[trigger] s[j],
        ) by {
            if j < s.len() - 1 {
                assert(s.drop_last()[j] == s[j]);
            }
        }
        if trimmed_end_spec(s) > 0 {
            assert(s.drop_last()[trimmed_end_spec(s) - 1] == s[trimmed_end_spec(s) - 1]);
        }
    }
}

/// Splitting always yields at least one piece.
pub proof fn lemma_split_nonempty(s: Seq<char>, sep: char)
    ensures
        split_spec(s, sep).len() >= 1,
    decreases s.len(),
{
    if s.len() > 0 {
        lemma_split_nonempty(s.drop_last(), sep);
    }
}

/// Whether the character is white space.
pub fn is_whitespace(c: char) -> (r: bool)
    ensures
        r == is_space(c),
{
    let n: u32 = c as u32;
    (0x09 <= n && n <= 0x0D) || n == 0x20 || n == 0x85 || n == 0xA0 || n == 0x1680 || (0x2000 <= n
        && n <= 0x200A) || n == 0x2028 || n == 0x2029 || n == 0x202F || n == 0x205F || n == 0x3000
}

/// The characters of a string slice.
pub fn chars_of(s: &str) -> (r: Vec<char>)
    ensures
        r@ == s@,
{
    broadcast use vstd::string::group_string_axioms;

    let mut v: Vec<char> = Vec::new();
    for c in it: s.chars()
        invariant
            v@ == it.seq().take(it.index() as int),
            it.seq() == s@,
    {
        v.push(c);
    }
    v
}

/// `String::push`: the string grows by the one character at its end.
#[verifier::external_body]
fn push_char(s: &mut String, c: char)
    ensures
        final(s)@ == old(s)@.push(c),
{
    s.push(c)
}

/// The string made of the characters `from..to` of `v`.
pub fn substring(v: &Vec<char>, from: usize, to: usize) -> (r: String)
    requires
        from <= to <= v.len(),
    ensures
        r@ == v@.subrange(from as int, to as int),
{
    let mut s = String::new();
    let mut i: usize = from;
    while i < to
        invariant
            from <= i <= to <= v.len(),
            s@ == v@.subrange(from as int, i as int),
        decreases to - i,
    {
        push_char(&mut s, v[i]);
        assert(v@.subrange(from as int, i as int).push(v@[i as int]) == v@.subrange(
            from as int,
            i + 1,
        ));
        i += 1;
    }
    s
}

/// The string made of all the characters of `v`.
pub fn string_of(v: &Vec<char>) -> (r: String)
    ensures
        r@ == v@,
{
    let r = substring(v, 0, v.len());
    assert(v@.subrange(0, v.len() as int) == v@);
    r
}

/// The first place at or after `from` that holds no white space.
pub fn skip_spaces(v: &Vec<char>, from: usize) -> (r: usize)
    requires
        from <= v.len(),
    ensures
        r == skip_spaces_spec(v@, from as int),
        from <= r <= v.len(),
{
    let mut i: usize = from;
    while i < v.len() && is_whitespace(v[i])
        invariant
            from <= i <= v.len(),
            skip_spaces_spec(v@, from as int) == skip_spaces_spec(v@, i as int),
        decreases v.len() - i,
    {
        i += 1;
    }
    i
}

/// The first place at or after `from` that holds white space.
pub fn skip_word(v: &Vec<char>, from: usize) -> (r: usize)
    requires
        from <= v.len(),
    ensures
        r == skip_word_spec(v@, from as int),
        from <= r <= v.len(),
{
    let mut i: usize = from;
    while i < v.len() && !is_whitespace(v[i])
        invariant
            from <= i <= v.len(),
            skip_word_spec(v@, from as int) == skip_word_spec(v@, i as int),
        decreases v.len() - i,
    {
        i += 1;
    }
    i
}

/// The first place at or after `from` that holds `c`.
pub fn find(v: &Vec<char>, c: char, from: usize) -> (r: usize)
    requires
        from <= v.len(),
    ensures
        r == find_spec(v@, c, from as int),
        from <= r <= v.len(),
{
    let mut i: usize = from;
    while i < v.len() && v[i] != c
        invariant
            from <= i <= v.len(),
            find_spec(v@, c, from as int) == find_spec(v@, c, i as int),
        decreases v.len() - i,
    {
        i += 1;
    }
    i
}

/// The text without the white space at its two ends, as `str::trim` gives it.
pub fn trim(s: &str) -> (r: String)
    ensures
        r@ == trim_spec(s@),
{
    let v = chars_of(s);
    let start = skip_spaces(&v, 0);
    if start >= v.len() {
        String::new()
    } else {
        let mut end: usize = v.len();
        assert(v@.take(v.len() as int) == v@);
        while end > 0 && is_whitespace(v[end - 1])
            invariant
                end <= v.len(),
                trimmed_end_spec(v@) == trimmed_end_spec(v@.take(end as int)),
            decreases end,
        {
            assert(v@.take(end as int).drop_last() == v@.take(end - 1));
            end -= 1;
        }
        proof {
            assert(v@.take(v.len() as int) == v@);
            lemma_skip_spaces_bounds(v@, 0);
            lemma_trimmed_end_bounds(v@);
            assert(trimmed_end_spec(v@.take(end as int)) == end);
        }
        substring(&v, start, end)
    }
}

/// The pieces of `s` between the occurrences of `sep`.
pub fn split(s: &str, sep: char) -> (r: Vec<String>)
    ensures
        views(r@) == split_spec(s@, sep),
{
    let v = chars_of(s);
    let mut pieces: Vec<String> = Vec::new();
    let mut start: usize = 0;
    let mut i: usize = 0;
    assert(v@.subrange(0, 0) =~= Seq::<char>::empty());
    assert(views(pieces@).push(v@.subrange(0, 0)) =~= seq![Seq::<char>::empty()]);
    assert(v@.take(0).len() == 0);
    while i < v.len()
        invariant
            start <= i <= v.len(),
            split_spec(v@.take(i as int), sep) == views(pieces@).push(
                v@.subrange(start as int, i as int),
            ),
        decreases v.len() - i,
    {
        let ghost before = views(pieces@);
        proof {
            assert(v@.take(i + 1).drop_last() == v@.take(i as int));
            assert(v@.take(i + 1).last() == v@[i as int]);
        }
        if v[i] == sep {
            let piece = substring(&v, start, i);
            pieces.push(piece);
            start = i + 1;
            assert(views(pieces@) =~= before.push(piece@));
            assert(v@.subrange(start as int, i + 1) == Seq::<char>::empty());
        } else {
            assert(v@.subrange(start as int, i as int).push(v@[i as int]) =~= v@.subrange(
                start as int,
                i + 1,
            ));
            assert(before.push(v@.subrange(start as int, i as int)).update(
                before.len() as int,
                v@.subrange(start as int, i as int).push(v@[i as int]),
            ) =~= before.push(v@.subrange(start as int, i + 1)));
        }
        i += 1;
    }
    let ghost before = views(pieces@);
    let piece = substring(&v, start, i);
    pieces.push(piece);
    proof {
        assert(v@.take(i as int) == v@);
        assert(views(pieces@) =~= before.push(piece@));
    }
    pieces
}

/// The lines of a text, as `str::lines` gives them.
pub fn lines(s: &str) -> (r: Vec<String>)
    ensures
        views(r@) == lines_spec(s@),
{
    let mut pieces = split(s, '\n');
    proof {
        lemma_split_nonempty(s@, '\n');
    }
    let ghost all = views(pieces@);
    let last = pieces.len() - 1;
    let mut out: Vec<String> = Vec::new();
    let mut i: usize = 0;
    while i < pieces.len()
        invariant
            i <= pieces.len(),
            last == pieces.len() - 1,
            all == views(pieces@),
            all == split_spec(s@, '\n'),
            i <= last ==> views(out@) =~= Seq::new(i as nat, |k: int| strip_cr(all[k])),
            i > last ==> views(out@) == lines_spec(s@),
        decreases pieces.len() - i,
    {
        let ghost before = views(out@);
        let piece = chars_of(pieces[i].as_str());
        assert(piece@ == all[i as int]);
        if i < last {
            let n = piece.len();
            let line = if n > 0 && piece[n - 1] == '\r' {
                substring(&piece, 0, n - 1)
            } else {
                string_of(&piece)
            };
            assert(line@ == strip_cr(all[i as int])) by {
                assert(piece@.subrange(0, n - 1) == piece@.drop_last());
            }
            out.push(line);
            assert(views(out@) =~= before.push(line@));
        } else if piece.len() > 0 {
            let line = string_of(&piece);
            out.push(line);
            assert(views(out@) =~= before.push(line@));
            assert(views(out@) =~= lines_spec(s@));
        } else {
            assert(views(out@) =~= lines_spec(s@));
        }
        i += 1;
    }
    out
}

/// `Itertools::join` over the strings of a vector: each of them in turn, with
/// `sep` written between each two.
#[verifier::external_body]
fn join_with(parts: &Vec<String>, sep: &str) -> (r: String)
    ensures
        r@ == join_spec(views(parts@), sep@),
{
    parts.iter().join(sep)
}

/// The strings laid end to end with `sep` between each two of them.
pub fn join(parts: &Vec<String>, sep: &str) -> (r: String)
    ensures
        r@ == join_spec(views(parts@), sep@),
{
    join_with(parts, sep)
}

/// `a` followed by `b`.
pub fn concat(a: &str, b: &str) -> (r: String)
    ensures
        r@ == a@ + b@,
{
    String::from_str(a).concat(b)
}

/// `a`, `b` and `c` one after the other.
pub fn concat3(a: &str, b: &str, c: &str) -> (r: String)
    ensures
        r@ == a@ + b@ + c@,
{
    String::from_str(a).concat(b).concat(c)
}

/// Whether `prefix` opens `s`.
pub open spec fn starts_with_spec(s: Seq<char>, prefix: Seq<char>) -> bool {
    prefix.len() <= s.len() && s.take(prefix.len() as int) == prefix
}

/// Whether `prefix` opens `s`, as `str::starts_with` tells it.
pub fn starts_with(s: &str, prefix: &str) -> (r: bool)
    ensures
        r == starts_with_spec(s@, prefix@),
{
    let a = chars_of(s);
    let b = chars_of(prefix);
    if b.len() > a.len() {
        return false;
    }
    let mut i: usize = 0;
    while i < b.len()
        invariant
            i <= b.len() <= a.len(),
            a@ == s@,
            b@ == prefix@,
            a@.take(i as int) == b@.take(i as int),
        decreases b.len() - i,
    {
        if a[i] != b[i] {
            assert(a@.take(b.len() as int)[i as int] != b@[i as int]);
            return false;
        }
        assert(a@.take(i + 1) == a@.take(i as int).push(a@[i as int]));
        assert(b@.take(i + 1) == b@.take(i as int).push(b@[i as int]));
        i += 1;
    }
    assert(b@.take(b.len() as int) == b@);
    true
}

/// The character that stands for a value below ten.
pub open spec fn digit_spec(d: nat) -> char {
    if d == 0 {
        '0'
    } else if d == 1 {
        '1'
    } else if d == 2 {
        '2'
    } else if d == 3 {
        '3'
    } else if d == 4 {
        '4'
    } else if d == 5 {
        '5'
    } else if d == 6 {
        '6'
    } else if d == 7 {
        '7'
    } else if d == 8 {
        '8'
    } else {
        '9'
    }
}

/// A number written in decimal digits.
pub open spec fn decimal_spec(n: nat) -> Seq<char>
    decreases n,
{
    if n < 10 {
        seq![digit_spec(n)]
    } else {
        decimal_spec(n / 10).push(digit_spec(n % 10))
    }
}

/// The character that stands for a value below ten.
pub fn digit(d: usize) -> (r: char)
    requires
        d < 10,
    ensures
        r == digit_spec(d as nat),
{
    if d == 0 {
        '0'
    } else if d == 1 {
        '1'
    } else if d == 2 {
        '2'
    } else if d == 3 {
        '3'
    } else if d == 4 {
        '4'
    } else if d == 5 {
        '5'
    } else if d == 6 {
        '6'
    } else if d == 7 {
        '7'
    } else if d == 8 {
        '8'
    } else {
        '9'
    }
}

/// The number in decimal digits, as `to_string` writes it.
pub fn decimal(n: usize) -> (r: String)
    ensures
        r@ == decimal_spec(n as nat),
    decreases n,
{
    if n < 10 {
        let mut s = String::new();
        push_char(&mut s, digit(n));
        assert(s@ =~= seq![digit_spec(n as nat)]);
        s
    } else {
        let mut s = decimal(n / 10);
        push_char(&mut s, digit(n % 10));
        s
    }
}

/// The number in decimal digits.
pub fn decimal64(n: u64) -> (r: String)
    ensures
        r@ == decimal_spec(n as nat),
    decreases n,
{
    if n < 10 {
        let mut s = String::new();
        push_char(&mut s, digit(n as usize));
        assert(s@ =~= seq![digit_spec(n as nat)]);
        s
    } else {
        let mut s = decimal64(n / 10);
        push_char(&mut s, digit((n % 10) as usize));
        s
    }
}

/// Whether `needle` stands in `s` at place `i`.
pub open spec fn matches_at(s: Seq<char>, needle: Seq<char>, i: int) -> bool {
    0 <= i && i + needle.len() <= s.len() && s.subrange(i, i + needle.len()) == needle
}

/// The first place at or after `from` where `needle` stands in `s`, or the
/// length of `s`.
pub open spec fn find_sub_spec(s: Seq<char>, needle: Seq<char>, from: int) -> int
    decreases s.len() - from,
{
    if from < 0 || from >= s.len() || from + needle.len() > s.len() {
        s.len() as int
    } else if matches_at(s, needle, from) {
        from
    } else {
        find_sub_spec(s, needle, from + 1)
    }
}

/// What is left of `s` from place `from` on when every occurrence of
/// `needle` is taken out, the leftmost first.
pub open spec fn strip_from(s: Seq<char>, needle: Seq<char>, from: int) -> Seq<char>
    decreases s.len() - from,
{
    if from < 0 || from >= s.len() {
        Seq::empty()
    } else if needle.len() > 0 && matches_at(s, needle, from) {
        strip_from(s, needle, from + needle.len())
    } else {
        seq![s[from]] + strip_from(s, needle, from + 1)
    }
}

/// `s` without any occurrence of `needle`, as `str::replace` with an empty
/// replacement gives it.
pub open spec fn strip_spec(s: Seq<char>, needle: Seq<char>) -> Seq<char> {
    strip_from(s, needle, 0)
}

/// Whether `needle` stands in `v` at place `i`.
pub fn matches(v: &Vec<char>, needle: &Vec<char>, i: usize) -> (r: bool)
    ensures
        r == matches_at(v@, needle@, i as int),
{
    if needle.len() > v.len() || i > v.len() - needle.len() {
        return false;
    }
    let mut k: usize = 0;
    while k < needle.len()
        invariant
            k <= needle.len(),
            i + needle.len() <= v.len(),
            forall|j: int| 0 <= j < k ==> v@[i + j] == needle@[j],
        decreases needle.len() - k,
    {
        if v[i + k] != needle[k] {
            assert(v@.subrange(i as int, i + needle.len())[k as int] != needle@[k as int]);
            return false;
        }
        k += 1;
    }
    assert(v@.subrange(i as int, i + needle.len()) =~= needle@);
    true
}

/// The first place at or after `from` where `needle` stands in `v`, or the
/// length of `v`.
pub fn find_sub(v: &Vec<char>, needle: &Vec<char>, from: usize) -> (r: usize)
    ensures
        r == find_sub_spec(v@, needle@, from as int),
        r <= v.len(),
{
    if needle.len() > v.len() {
        return v.len();
    }
    let last = v.len() - needle.len();
    let mut i: usize = from;
    while i < v.len() && i <= last
        invariant
            last == v.len() - needle.len(),
            from <= i,
            find_sub_spec(v@, needle@, from as int) == find_sub_spec(v@, needle@, i as int),
        decreases last + 1 - i,
    {
        if matches(v, needle, i) {
            return i;
        }
        i += 1;
    }
    v.len()
}

/// The text without any occurrence of `needle`.
pub fn strip(s: &str, needle: &str) -> (r: String)
    ensures
        r@ == strip_spec(s@, needle@),
{
    let v = chars_of(s);
    let n = chars_of(needle);
    let mut out: Vec<char> = Vec::new();
    let mut i: usize = 0;
    assert(out@ + strip_from(v@, n@, 0) =~= strip_from(v@, n@, 0));
    while i < v.len()
        invariant
            i <= v.len(),
            out@ + strip_from(v@, n@, i as int) == strip_from(v@, n@, 0),
        decreases v.len() - i,
    {
        let ghost before = out@;
        if n.len() > 0 && matches(&v, &n, i) {
            i += n.len();
        } else {
            out.push(v[i]);
            assert(out@ + strip_from(v@, n@, i + 1) =~= before + (seq![v@[i as int]] + strip_from(
                v@,
                n@,
                i + 1,
            )));
            i += 1;
        }
    }
    assert(out@ + strip_from(v@, n@, i as int) =~= out@);
    string_of(&out)
}

/// Where `find_sub_spec` finds the text, the text fits.
pub proof fn lemma_find_sub_bounds(s: Seq<char>, needle: Seq<char>, from: int)
    requires
        0 <= from,
    ensures
        find_sub_spec(s, needle, from) <= s.len(),
        find_sub_spec(s, needle, from) < s.len() ==> from <= find_sub_spec(s, needle, from)
            && find_sub_spec(s, needle, from) + needle.len() <= s.len(),
    decreases s.len() - from,
{
    if from < s.len() && from + needle.len() <= s.len() && !matches_at(s, needle, from) {
        lemma_find_sub_bounds(s, needle, from + 1);
    }
}

/// The character that stands for a value below sixteen.
pub open spec fn hex_digit_spec(d: nat) -> char {
    if d < 10 {
        digit_spec(d)
    } else if d == 10 {
        'a'
    } else if d == 11 {
        'b'
    } else if d == 12 {
        'c'
    } else if d == 13 {
        'd'
    } else if d == 14 {
        'e'
    } else {
        'f'
    }
}

/// A number written in lower-case hex digits.
pub open spec fn hex_spec(n: nat) -> Seq<char>
    decreases n,
{
    if n < 16 {
        seq![hex_digit_spec(n)]
    } else {
        hex_spec(n / 16).push(hex_digit_spec(n % 16))
    }
}

/// The character that stands for a value below sixteen.
pub fn hex_digit(d: usize) -> (r: char)
    requires
        d < 16,
    ensures
        r == hex_digit_spec(d as nat),
{
    if d < 10 {
        digit(d)
    } else if d == 10 {
        'a'
    } else if d == 11 {
        'b'
    } else if d == 12 {
        'c'
    } else if d == 13 {
        'd'
    } else if d == 14 {
        'e'
    } else {
        'f'
    }
}

/// The number in lower-case hex digits.
pub fn hex64(n: u64) -> (r: String)
    ensures
        r@ == hex_spec(n as nat),
    decreases n,
{
    if n < 16 {
        let mut s = String::new();
        push_char(&mut s, hex_digit(n as usize));
        assert(s@ =~= seq![hex_digit_spec(n as nat)]);
        s
    } else {
        let mut s = hex64(n / 16);
        push_char(&mut s, hex_digit((n % 16) as usize));
        s
    }
}

} // verus!
