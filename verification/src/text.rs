//! Character-level text utilities for the extractors.
//!
//! The extraction rules are stated over `Seq<char>`, the view Verus gives to
//! `String` and `&str`.  Executable code works on `Vec<char>`, which has the
//! same view, so every transformation below carries an exact contract.

use vstd::prelude::*;

verus! {

/// Holds exactly when `c` is one of the Unicode white-space code points,
/// the set that `str::trim` strips from either end of a string.
pub open spec fn is_space(c: char) -> bool {
    let u = c as u32;
    (9 <= u && u <= 13) || u == 32 || u == 0x85 || u == 0xA0 || u == 0x1680 || (0x2000 <= u && u
        <= 0x200A) || u == 0x2028 || u == 0x2029 || u == 0x202F || u == 0x205F || u == 0x3000
}

/// Executable test for `is_space`.
pub fn char_is_space(c: char) -> (r: bool)
    ensures
        r == is_space(c),
{
    let u = c as u32;
    (9 <= u && u <= 13) || u == 32 || u == 0x85 || u == 0xA0 || u == 0x1680 || (0x2000 <= u && u
        <= 0x200A) || u == 0x2028 || u == 0x2029 || u == 0x202F || u == 0x205F || u == 0x3000
}

/// Relies on `str::chars`: yields the characters of the string in order,
/// which are exactly the string's view.
#[verifier::external_body]
pub fn chars_of(s: &str) -> (r: Vec<char>)
    ensures
        r@ == s@,
{
    s.chars().collect()
}

/// Relies on `String: FromIterator<char>`: collecting characters builds the
/// string made of exactly those characters.
#[verifier::external_body]
pub fn string_of(chars: &Vec<char>) -> (r: String)
    ensures
        r@ == chars@,
{
    chars.iter().collect()
}

/// Character-by-character equality of two vectors.
pub fn eq_chars(a: &Vec<char>, b: &Vec<char>) -> (r: bool)
    ensures
        r == (a@ == b@),
{
    if a.len() != b.len() {
        return false;
    }
    let mut i: usize = 0;
    while i < a.len()
        invariant
            i <= a.len(),
            a.len() == b.len(),
            forall|j: int| 0 <= j < i ==> a@[j] == b@[j],
        decreases a.len() - i,
    {
        if a[i] != b[i] {
            return false;
        }
        i += 1;
    }
    proof {
        assert(a@ =~= b@);
    }
    true
}

/// Equality of two string slices, decided over their characters.
pub fn eq_str(a: &str, b: &str) -> (r: bool)
    ensures
        r == (a@ == b@),
{
    let va = chars_of(a);
    let vb = chars_of(b);
    eq_chars(&va, &vb)
}

/// The string without its leading white space.
pub open spec fn trim_start_spec(s: Seq<char>) -> Seq<char>
    decreases s.len(),
{
    if s.len() > 0 && is_space(s[0]) {
        trim_start_spec(s.drop_first())
    } else {
        s
    }
}

/// The string without its trailing white space.
pub open spec fn trim_end_spec(s: Seq<char>) -> Seq<char>
    decreases s.len(),
{
    if s.len() > 0 && is_space(s.last()) {
        trim_end_spec(s.drop_last())
    } else {
        s
    }
}

/// The string with white space removed from both ends, as `str::trim` does.
pub open spec fn trim_spec(s: Seq<char>) -> Seq<char> {
    trim_end_spec(trim_start_spec(s))
}

proof fn lemma_trim_start_at(s: Seq<char>, i: int)
    requires
        0 <= i <= s.len(),
        forall|j: int| 0 <= j < i ==> is_space(s[j]),
        i == s.len() || !is_space(s[i]),
    ensures
        trim_start_spec(s) == s.skip(i),
    decreases i,
{
    if i == 0 {
        assert(s.skip(0) =~= s);
    } else {
        assert(is_space(s[0]));
        lemma_trim_start_at(s.drop_first(), i - 1);
        assert(s.drop_first().skip(i - 1) =~= s.skip(i));
    }
}

proof fn lemma_trim_end_at(s: Seq<char>, i: int)
    requires
        0 <= i <= s.len(),
        forall|j: int| i <= j < s.len() ==> is_space(s[j]),
        i == 0 || !is_space(s[i - 1]),
    ensures
        trim_end_spec(s) == s.take(i),
    decreases s.len() - i,
{
    if i == s.len() {
        assert(s.take(i) =~= s);
    } else {
        assert(is_space(s.last()));
        lemma_trim_end_at(s.drop_last(), i);
        assert(s.drop_last().take(i) =~= s.take(i));
    }
}

/// Copy of `s` with white space removed from both ends.
pub fn trim_chars(s: &Vec<char>) -> (r: Vec<char>)
    ensures
        r@ == trim_spec(s@),
{
    let mut start: usize = 0;
    while start < s.len() && char_is_space(s[start])
        invariant
            start <= s.len(),
            forall|j: int| 0 <= j < start ==> is_space(s@[j]),
        decreases s.len() - start,
    {
        start += 1;
    }
    let mut end: usize = s.len();
    while end > start && char_is_space(s[end - 1])
        invariant
            start <= end <= s.len(),
            forall|j: int| end <= j < s.len() ==> is_space(s@[j]),
        decreases end,
    {
        end -= 1;
    }
    let mut r: Vec<char> = Vec::new();
    let mut i: usize = start;
    while i < end
        invariant
            start <= i <= end <= s.len(),
            r@ == s@.subrange(start as int, i as int),
        decreases end - i,
    {
        r.push(s[i]);
        proof {
            assert(s@.subrange(start as int, i + 1) =~= s@.subrange(start as int, i as int).push(
                s@[i as int],
            ));
        }
        i += 1;
    }
    proof {
        lemma_trim_start_at(s@, start as int);
        let t = s@.skip(start as int);
        lemma_trim_end_at(t, end - start);
        assert(t.take(end - start) =~= s@.subrange(start as int, end as int));
        assert(forall|j: int|
            end - start <= j < t.len() ==> is_space(#[trigger] t[j]) && t[j] == s@[j + start]);
    }
    r
}

/// All the given parts, concatenated in order.
pub open spec fn concat_texts(parts: Seq<Seq<char>>) -> Seq<char>
    decreases parts.len(),
{
    if parts.len() == 0 {
        Seq::empty()
    } else {
        concat_texts(parts.drop_last()) + parts.last()
    }
}

/// Concatenation of the strings in `parts`, with nothing between them.
pub fn concat_strings(parts: &Vec<String>) -> (r: Vec<char>)
    ensures
        r@ == concat_texts(parts.deep_view()),
{
    let mut r: Vec<char> = Vec::new();
    let mut i: usize = 0;
    while i < parts.len()
        invariant
            i <= parts.len(),
            r@ == concat_texts(parts.deep_view().take(i as int)),
        decreases parts.len() - i,
    {
        let mut part = chars_of(parts[i].as_str());
        r.append(&mut part);
        proof {
            let dv = parts.deep_view();
            assert(dv.take(i + 1).drop_last() =~= dv.take(i as int));
            assert(dv.take(i + 1).last() == dv[i as int]);
        }
        i += 1;
    }
    proof {
        assert(parts.deep_view().take(parts.deep_view().len() as int) =~= parts.deep_view());
    }
    r
}

/// The given parts joined with a newline between consecutive parts.
pub open spec fn join_newline(parts: Seq<Seq<char>>) -> Seq<char>
    decreases parts.len(),
{
    if parts.len() == 0 {
        Seq::empty()
    } else if parts.len() == 1 {
        parts[0]
    } else {
        join_newline(parts.drop_last()) + seq!['\n'] + parts.last()
    }
}

/// One table cell's value: its text nodes, each trimmed, joined with
/// newlines, with one trailing newline (a trailing empty line) removed.
pub open spec fn spec_cell_value(texts: Seq<Seq<char>>) -> Seq<char> {
    let joined = join_newline(texts.map_values(|t: Seq<char>| trim_spec(t)));
    if joined.len() > 0 && joined.last() == '\n' {
        joined.drop_last()
    } else {
        joined
    }
}

/// Builds one cell's value out of its raw text nodes.
pub fn cell_value(texts: &Vec<String>) -> (r: Vec<char>)
    ensures
        r@ == spec_cell_value(texts.deep_view()),
{
    let ghost mapped = texts.deep_view().map_values(|t: Seq<char>| trim_spec(t));
    let mut acc: Vec<char> = Vec::new();
    let mut i: usize = 0;
    while i < texts.len()
        invariant
            i <= texts.len(),
            mapped == texts.deep_view().map_values(|t: Seq<char>| trim_spec(t)),
            mapped.len() == texts.len(),
            acc@ == join_newline(mapped.take(i as int)),
        decreases texts.len() - i,
    {
        if i > 0 {
            acc.push('\n');
        }
        let part = chars_of(parts_str(texts, i));
        let mut trimmed = trim_chars(&part);
        acc.append(&mut trimmed);
        proof {
            assert(mapped.take(i + 1).drop_last() =~= mapped.take(i as int));
            assert(mapped.take(i + 1).last() == mapped[i as int]);
            assert(mapped[i as int] == trim_spec(texts.deep_view()[i as int]));
        }
        i += 1;
    }
    proof {
        assert(mapped.take(mapped.len() as int) =~= mapped);
    }
    if acc.len() > 0 && acc[acc.len() - 1] == '\n' {
        acc.pop();
        proof {
            assert(acc@ == join_newline(mapped).drop_last());
        }
    }
    acc
}

/// Borrow of the `i`-th string of a vector.
fn parts_str(parts: &Vec<String>, i: usize) -> (r: &str)
    requires
        i < parts.len(),
    ensures
        r@ == parts.deep_view()[i as int],
{
    parts[i].as_str()
}

/// The needle `n` occurs in `h` starting at position `i`.
pub open spec fn matches_at(h: Seq<char>, n: Seq<char>, i: int) -> bool {
    0 <= i && i + n.len() <= h.len() && h.subrange(i, i + n.len()) == n
}

/// Position of the first occurrence of `n` in `h` at or after `i`.
pub open spec fn find_sub_from(h: Seq<char>, n: Seq<char>, i: int) -> Option<int>
    decreases h.len() - i,
{
    if n.len() == 0 || i < 0 || i + n.len() > h.len() {
        None
    } else if matches_at(h, n, i) {
        Some(i)
    } else {
        find_sub_from(h, n, i + 1)
    }
}

/// Position of the first occurrence of `n` in `h`, if any.
pub open spec fn find_sub_spec(h: Seq<char>, n: Seq<char>) -> Option<int> {
    find_sub_from(h, n, 0)
}

/// `n` occurs somewhere in `h`.
pub open spec fn contains_sub(h: Seq<char>, n: Seq<char>) -> bool {
    find_sub_spec(h, n) is Some
}

/// Does `n` occur in `h` at position `i`?
fn check_match_at(h: &Vec<char>, n: &Vec<char>, i: usize) -> (r: bool)
    requires
        i + n.len() <= h.len(),
    ensures
        r == matches_at(h@, n@, i as int),
{
    let mut j: usize = 0;
    while j < n.len()
        invariant
            j <= n.len(),
            i + n.len() <= h.len(),
            forall|k: int| 0 <= k < j ==> h@[i + k] == n@[k],
        decreases n.len() - j,
    {
        if h[i + j] != n[j] {
            proof {
                assert(h@.subrange(i as int, i + n@.len())[j as int] == h@[i + j]);
            }
            return false;
        }
        j += 1;
    }
    proof {
        assert(h@.subrange(i as int, i + n@.len()) =~= n@);
    }
    true
}

/// Position of the first occurrence of `n` in `h`, if any.
pub fn find_sub(h: &Vec<char>, n: &Vec<char>) -> (r: Option<usize>)
    ensures
        match r {
            Some(i) => find_sub_spec(h@, n@) == Some(i as int),
            None => find_sub_spec(h@, n@) is None,
        },
{
    if n.len() == 0 || n.len() > h.len() {
        return None;
    }
    let mut i: usize = 0;
    while i <= h.len() - n.len()
        invariant
            1 <= n.len() <= h.len(),
            i <= h.len() - n.len() + 1,
            find_sub_from(h@, n@, 0) == find_sub_from(h@, n@, i as int),
        decreases h.len() - i,
    {
        if check_match_at(h, n, i) {
            return Some(i);
        }
        proof {
            assert(find_sub_from(h@, n@, i as int) == find_sub_from(h@, n@, i + 1));
        }
        i += 1;
    }
    None
}

/// A found position really carries a match there.
pub proof fn lemma_find_sub_found(h: Seq<char>, n: Seq<char>, start: int, i: int)
    requires
        find_sub_from(h, n, start) == Some(i),
    ensures
        matches_at(h, n, i),
        start <= i,
    decreases h.len() - start,
{
    if !(n.len() == 0 || start < 0 || start + n.len() > h.len()) && !matches_at(h, n, start) {
        lemma_find_sub_found(h, n, start + 1, i);
    }
}

/// Copy of `v[a..b]`.
pub fn sub_chars(v: &Vec<char>, a: usize, b: usize) -> (r: Vec<char>)
    requires
        a <= b <= v.len(),
    ensures
        r@ == v@.subrange(a as int, b as int),
{
    let mut r: Vec<char> = Vec::new();
    let mut i: usize = a;
    while i < b
        invariant
            a <= i <= b <= v.len(),
            r@ == v@.subrange(a as int, i as int),
        decreases b - i,
    {
        r.push(v[i]);
        proof {
            assert(v@.subrange(a as int, i + 1) =~= v@.subrange(a as int, i as int).push(
                v@[i as int],
            ));
        }
        i += 1;
    }
    r
}

/// Joins the given parts with a newline between consecutive parts.
pub fn join_newline_vecs(parts: &Vec<Vec<char>>) -> (r: Vec<char>)
    ensures
        r@ == join_newline(parts.deep_view()),
{
    let ghost pv = parts.deep_view();
    let mut r: Vec<char> = Vec::new();
    let mut i: usize = 0;
    while i < parts.len()
        invariant
            i <= parts.len(),
            pv == parts.deep_view(),
            pv.len() == parts.len(),
            r@ == join_newline(pv.take(i as int)),
        decreases parts.len() - i,
    {
        if i > 0 {
            r.push('\n');
        }
        let mut part = copy_chars(&parts[i]);
        r.append(&mut part);
        proof {
            assert(pv.take(i + 1).drop_last() =~= pv.take(i as int));
            assert(pv.take(i + 1).last() == pv[i as int]);
        }
        i += 1;
    }
    proof {
        assert(pv.take(pv.len() as int) =~= pv);
    }
    r
}

/// Copy of a character vector.
fn copy_chars(v: &Vec<char>) -> (r: Vec<char>)
    ensures
        r@ == v@,
{
    let mut r: Vec<char> = Vec::new();
    let mut i: usize = 0;
    while i < v.len()
        invariant
            i <= v.len(),
            r@ == v@.take(i as int),
        decreases v.len() - i,
    {
        r.push(v[i]);
        proof {
            assert(v@.take(i + 1) =~= v@.take(i as int).push(v@[i as int]));
        }
        i += 1;
    }
    proof {
        assert(v@.take(v@.len() as int) =~= v@);
    }
    r
}

/// `p` is a prefix of `s`.
pub open spec fn starts_with_spec(s: Seq<char>, p: Seq<char>) -> bool {
    p.len() <= s.len() && s.take(p.len() as int) == p
}

/// Does `s` start with `p`?
pub fn starts_with_chars(s: &Vec<char>, p: &Vec<char>) -> (r: bool)
    ensures
        r == starts_with_spec(s@, p@),
{
    if p.len() > s.len() {
        return false;
    }
    let r = check_match_at(s, p, 0);
    proof {
        assert(s@.subrange(0, p@.len() as int) =~= s@.take(p@.len() as int));
    }
    r
}

/// Every `/` replaced by `-`.
pub open spec fn spec_dashed(s: Seq<char>) -> Seq<char> {
    s.map_values(|c: char| if c == '/' { '-' } else { c })
}

/// Index of the last occurrence of `c` in `s`, or `-1` if `c` is absent.
pub open spec fn last_index_of(s: Seq<char>, c: char) -> int
    decreases s.len(),
{
    if s.len() == 0 {
        -1
    } else if s.last() == c {
        s.len() - 1
    } else {
        last_index_of(s.drop_last(), c)
    }
}

/// Everything from the last opening parenthesis onward removed; the whole
/// string when it has no opening parenthesis.
pub open spec fn cut_paren(s: Seq<char>) -> Seq<char> {
    if last_index_of(s, '(') >= 0 {
        s.take(last_index_of(s, '('))
    } else {
        s
    }
}

/// A date with its parenthesised weekday suffix stripped and each `/`
/// replaced by `-`, turning `2021/10/07(Thu)` into `2021-10-07`.
pub open spec fn spec_norm_date(s: Seq<char>) -> Seq<char> {
    spec_dashed(cut_paren(s))
}

proof fn lemma_last_index_absent(s: Seq<char>, c: char)
    requires
        forall|j: int| 0 <= j < s.len() ==> s[j] != c,
    ensures
        last_index_of(s, c) == -1,
    decreases s.len(),
{
    if s.len() > 0 {
        lemma_last_index_absent(s.drop_last(), c);
    }
}

proof fn lemma_last_index_found(s: Seq<char>, c: char, i: int)
    requires
        0 <= i < s.len(),
        s[i] == c,
        forall|j: int| i < j < s.len() ==> s[j] != c,
    ensures
        last_index_of(s, c) == i,
    decreases s.len(),
{
    if i == s.len() - 1 {
    } else {
        lemma_last_index_found(s.drop_last(), c, i);
    }
}

/// Normalizes one date value: strips the parenthesised suffix, then
/// replaces each `/` with `-`.
pub fn normalize_date_chars(s: &Vec<char>) -> (r: Vec<char>)
    ensures
        r@ == spec_norm_date(s@),
{
    let mut cut: usize = s.len();
    let mut k: usize = s.len();
    while k > 0
        invariant
            k <= s.len(),
            cut == s.len() || (k <= cut < s.len() && s@[cut as int] == '(' && forall|j: int|
                cut < j < s.len() ==> s@[j] != '('),
            cut == s.len() ==> forall|j: int| k <= j < s.len() ==> s@[j] != '(',
        decreases k,
    {
        k -= 1;
        if cut == s.len() && s[k] == '(' {
            cut = k;
        }
    }
    proof {
        if cut == s.len() {
            lemma_last_index_absent(s@, '(');
        } else {
            lemma_last_index_found(s@, '(', cut as int);
        }
    }
    let mut r: Vec<char> = Vec::new();
    let mut i: usize = 0;
    let ghost base = cut_paren(s@);
    proof {
        assert(base.len() == cut as int || base.len() == s@.len());
        assert(forall|j: int| 0 <= j < base.len() ==> base[j] == s@[j]);
    }
    while i < cut
        invariant
            i <= cut <= s.len(),
            base == cut_paren(s@),
            base.len() == cut as int,
            forall|j: int| 0 <= j < base.len() ==> base[j] == s@[j],
            r@ == spec_dashed(base.take(i as int)),
        decreases cut - i,
    {
        let c = s[i];
        if c == '/' {
            r.push('-');
        } else {
            r.push(c);
        }
        proof {
            let m = spec_dashed(base.take(i + 1));
            assert(m =~= spec_dashed(base.take(i as int)).push(
                if base[i as int] == '/' {
                    '-'
                } else {
                    base[i as int]
                },
            ));
        }
        i += 1;
    }
    proof {
        assert(base.take(base.len() as int) =~= base);
        assert(r@ =~= spec_dashed(base));
    }
    r
}

/// The decimal digit character for `d`.
pub open spec fn digit_char(d: nat) -> char {
    if d == 0 {
        '0'
    } else if d == 1 {
        '1'
    } else if d == 2 {
        '2'
    } else if d == 3 {
        '3'
    } else if d == 4 {
        '4'
    } else if d == 5 {
        '5'
    } else if d == 6 {
        '6'
    } else if d == 7 {
        '7'
    } else if d == 8 {
        '8'
    } else {
        '9'
    }
}

/// The decimal notation of `n`, most significant digit first.
pub open spec fn spec_u32_str(n: nat) -> Seq<char>
    decreases n,
{
    if n < 10 {
        seq![digit_char(n)]
    } else {
        spec_u32_str(n / 10) + seq![digit_char(n % 10)]
    }
}

fn digit_char_exec(d: u32) -> (r: char)
    requires
        d < 10,
    ensures
        r == digit_char(d as nat),
{
    match d {
        0 => '0',
        1 => '1',
        2 => '2',
        3 => '3',
        4 => '4',
        5 => '5',
        6 => '6',
        7 => '7',
        8 => '8',
        _ => '9',
    }
}

/// The decimal notation of `n`.
pub fn u32_chars(n: u32) -> (r: Vec<char>)
    ensures
        r@ == spec_u32_str(n as nat),
    decreases n,
{
    if n < 10 {
        let mut r: Vec<char> = Vec::new();
        r.push(digit_char_exec(n));
        proof {
            assert(r@ =~= spec_u32_str(n as nat));
        }
        r
    } else {
        let mut r = u32_chars(n / 10);
        r.push(digit_char_exec(n % 10));
        proof {
            assert(r@ =~= spec_u32_str(n as nat));
        }
        r
    }
}

/// `c` is a decimal digit.
pub open spec fn is_digit(c: char) -> bool {
    48 <= c as u32 && c as u32 <= 57
}

/// The numeric value of a digit character.
pub open spec fn digit_val(c: char) -> nat {
    (if is_digit(c) {
        c as u32 - 48
    } else {
        0
    }) as nat
}

/// Every character of `s` is a decimal digit.
pub open spec fn all_digits(s: Seq<char>) -> bool {
    forall|i: int| 0 <= i < s.len() ==> is_digit(s[i])
}

/// The numeric value of a digit string, read most significant digit first.
pub open spec fn digits_val(s: Seq<char>) -> nat
    decreases s.len(),
{
    if s.len() == 0 {
        0
    } else {
        digits_val(s.drop_last()) * 10 + digit_val(s.last())
    }
}

/// What parsing `s` as an unsigned 32-bit integer yields: the digits' value
/// when `s` is nonempty, all digits, and the value fits; nothing otherwise.
pub open spec fn spec_parse_u32(s: Seq<char>) -> Option<u32> {
    if s.len() == 0 || !all_digits(s) {
        None
    } else if digits_val(s) > u32::MAX {
        None
    } else {
        Some(digits_val(s) as u32)
    }
}

proof fn lemma_digits_val_prefix_le(s: Seq<char>, k: int)
    requires
        0 <= k <= s.len(),
    ensures
        digits_val(s.take(k)) <= digits_val(s),
    decreases s.len() - k,
{
    if k == s.len() {
        assert(s.take(k) =~= s);
    } else {
        lemma_digits_val_prefix_le(s, k + 1);
        assert(s.take(k + 1).drop_last() =~= s.take(k));
        assert(digits_val(s.take(k + 1)) == digits_val(s.take(k)) * 10 + digit_val(
            s.take(k + 1).last(),
        ));
    }
}

/// Parses a digit string as an unsigned 32-bit integer.
pub fn parse_u32_chars(s: &Vec<char>) -> (r: Option<u32>)
    ensures
        r == spec_parse_u32(s@),
{
    if s.len() == 0 {
        return None;
    }
    let mut acc: u64 = 0;
    let mut i: usize = 0;
    while i < s.len()
        invariant
            i <= s.len(),
            forall|j: int| 0 <= j < i ==> is_digit(s@[j]),
            acc == digits_val(s@.take(i as int)),
            acc <= u32::MAX,
        decreases s.len() - i,
    {
        let u = s[i] as u32;
        if u < 48 || u > 57 {
            return None;
        }
        acc = acc * 10 + ((u - 48) as u64);
        proof {
            assert(s@.take(i + 1).drop_last() =~= s@.take(i as int));
            assert(s@.take(i + 1).last() == s@[i as int]);
        }
        if acc > 0xFFFF_FFFF {
            proof {
                lemma_digits_val_prefix_le(s@, i + 1);
            }
            return None;
        }
        i += 1;
    }
    proof {
        assert(s@.take(s@.len() as int) =~= s@);
    }
    Some(acc as u32)
}

} // verus!
