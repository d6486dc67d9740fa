//! Character-level text utilities and their mathematical models.

use vstd::prelude::*;
use vstd::slice::slice_subrange;

verus! {

broadcast use vstd::string::group_string_axioms;

/// `pat` occurs in `s` starting at position `i`.
pub open spec fn occurs_at(s: Seq<char>, pat: Seq<char>, i: int) -> bool {
    0 <= i && i + pat.len() <= s.len() && s.subrange(i, i + pat.len()) == pat
}

/// `s` ends with `suffix`.
pub open spec fn ends_with(s: Seq<char>, suffix: Seq<char>) -> bool {
    suffix.len() <= s.len() && s.subrange(s.len() - suffix.len(), s.len() as int) == suffix
}

/// `s` begins with `prefix`.
pub open spec fn starts_with(s: Seq<char>, prefix: Seq<char>) -> bool {
    prefix.len() <= s.len() && s.subrange(0, prefix.len() as int) == prefix
}

/// Copies the characters of a string slice into a vector.
pub fn chars_of(s: &str) -> (v: Vec<char>)
    ensures
        v@ == s@,
{
    let mut v: Vec<char> = Vec::new();
    for c in it: s.chars()
        invariant
            v@ == it.seq().take(it.index() as int),
            it.seq() == s@,
    {
        v.push(c);
    }
    v
}

} // verus!

verus! {

/// Whether the characters in `s` end with the characters in `suffix`.
pub fn chars_end_with(s: &[char], suffix: &[char]) -> (b: bool)
    ensures
        b == ends_with(s@, suffix@),
{
    if suffix.len() > s.len() {
        return false;
    }
    let off = s.len() - suffix.len();
    let mut i: usize = 0;
    while i < suffix.len()
        invariant
            off + suffix@.len() == s@.len(),
            s@.len() == s.len(),
            i <= suffix@.len(),
            forall|j: int| 0 <= j < i ==> s@[off + j] == suffix@[j],
        decreases suffix@.len() - i,
    {
        if s[off + i] != suffix[i] {
            assert(s@.subrange(s@.len() - suffix@.len(), s@.len() as int)[i as int] != suffix@[i as int]);
            return false;
        }
        i = i + 1;
    }
    assert(s@.subrange(s@.len() - suffix@.len(), s@.len() as int) =~= suffix@);
    true
}

} // verus!

verus! {

/// Index of the first occurrence of `pat` in `s` at or after `i`.
pub open spec fn find_from(s: Seq<char>, pat: Seq<char>, i: int) -> Option<int>
    decreases s.len() + 1 - i,
{
    if i < 0 || i + pat.len() > s.len() {
        None
    } else if occurs_at(s, pat, i) {
        Some(i)
    } else {
        find_from(s, pat, i + 1)
    }
}

/// Index of the first occurrence of `pat` in `s`.
pub open spec fn find(s: Seq<char>, pat: Seq<char>) -> Option<int> {
    find_from(s, pat, 0)
}

/// `find_from` returns the first occurrence at or after `i`, or reports that there is none.
pub proof fn lemma_find_from(s: Seq<char>, pat: Seq<char>, i: int)
    requires
        0 <= i,
    ensures
        find_from(s, pat, i) matches Some(k) ==> i <= k && occurs_at(s, pat, k) && forall|j: int|
            i <= j < k ==> !occurs_at(s, pat, j),
        find_from(s, pat, i) is None ==> forall|j: int| i <= j ==> !occurs_at(s, pat, j),
    decreases s.len() + 1 - i,
{
    if i + pat.len() > s.len() {
    } else if occurs_at(s, pat, i) {
    } else {
        lemma_find_from(s, pat, i + 1);
    }
}

/// `find` returns the first occurrence, or reports that there is none.
pub proof fn lemma_find(s: Seq<char>, pat: Seq<char>)
    ensures
        find(s, pat) matches Some(k) ==> 0 <= k && k + pat.len() <= s.len() && occurs_at(s, pat, k)
            && forall|j: int| 0 <= j < k ==> !occurs_at(s, pat, j),
        find(s, pat) is None ==> forall|j: int| !occurs_at(s, pat, j),
{
    lemma_find_from(s, pat, 0);
}

/// Finds the first occurrence of `pat` in `s`.
pub fn find_chars(s: &[char], pat: &[char]) -> (r: Option<usize>)
    ensures
        r matches Some(k) ==> find(s@, pat@) == Some(k as int),
        r is None ==> find(s@, pat@) is None,
{
    if pat.len() > s.len() {
        return None;
    }
    let last = s.len() - pat.len();
    let mut i: usize = 0;
    while i <= last
        invariant
            last + pat@.len() == s@.len(),
            s@.len() == s.len(),
            pat@.len() == pat.len(),
            find(s@, pat@) == find_from(s@, pat@, i as int),
        decreases last + 1 - i,
    {
        let mut j: usize = 0;
        let mut matched = true;
        while j < pat.len()
            invariant
                last + pat@.len() == s@.len(),
                s@.len() == s.len(),
                pat@.len() == pat.len(),
                i <= last,
                j <= pat@.len(),
                matched ==> forall|t: int| 0 <= t < j ==> s@[i + t] == pat@[t],
                !matched ==> !occurs_at(s@, pat@, i as int),
            decreases pat@.len() - j,
        {
            if s[i + j] != pat[j] {
                matched = false;
                assert(s@.subrange(i as int, i + pat@.len())[j as int] != pat@[j as int]);
            }
            j = j + 1;
        }
        if matched {
            assert(s@.subrange(i as int, i + pat@.len()) =~= pat@);
            return Some(i);
        }
        if i == last {
            assert(find_from(s@, pat@, i + 1) is None);
            return None;
        }
        i = i + 1;
    }
    None
}

/// The number of bytes that `c` takes in UTF-8.
pub open spec fn char_utf8_len(c: char) -> nat {
    if (c as u32) < 0x80 {
        1
    } else if (c as u32) < 0x800 {
        2
    } else if (c as u32) < 0x10000 {
        3
    } else {
        4
    }
}

/// The number of bytes that `s` takes in UTF-8.
pub open spec fn utf8_len(s: Seq<char>) -> nat
    decreases s.len(),
{
    if s.len() == 0 {
        0
    } else {
        utf8_len(s.drop_last()) + char_utf8_len(s.last())
    }
}

/// The number of bytes that `c` takes in UTF-8.
pub fn char_len_utf8(c: char) -> (n: usize)
    ensures
        n == char_utf8_len(c),
{
    let v = c as u32;
    if v < 0x80 {
        1
    } else if v < 0x800 {
        2
    } else if v < 0x10000 {
        3
    } else {
        4
    }
}

/// `String::push`: appends a character to the end of the string.
#[verifier::external_body]
fn push_char(s: &mut String, c: char)
    ensures
        final(s)@ == old(s)@.push(c),
{
    s.push(c);
}

/// Builds a string from characters.
pub fn string_of(v: &[char]) -> (s: String)
    ensures
        s@ == v@,
{
    let mut s = String::new();
    let mut i: usize = 0;
    while i < v.len()
        invariant
            i <= v@.len(),
            s@ == v@.take(i as int),
        decreases v@.len() - i,
    {
        push_char(&mut s, v[i]);
        i = i + 1;
        assert(s@ =~= v@.take(i as int));
    }
    assert(v@.take(v@.len() as int) =~= v@);
    s
}

} // verus!

verus! {

/// Unicode `White_Space`, the characters that `char::is_whitespace` accepts.
pub open spec fn is_whitespace(c: char) -> bool {
    let v = c as u32;
    ||| 0x09 <= v <= 0x0d
    ||| v == 0x20
    ||| v == 0x85
    ||| v == 0xa0
    ||| v == 0x1680
    ||| 0x2000 <= v <= 0x200a
    ||| v == 0x2028
    ||| v == 0x2029
    ||| v == 0x202f
    ||| v == 0x205f
    ||| v == 0x3000
}

/// `s` without its leading whitespace.
pub open spec fn trim_start(s: Seq<char>) -> Seq<char>
    decreases s.len(),
{
    if s.len() > 0 && is_whitespace(s[0]) {
        trim_start(s.drop_first())
    } else {
        s
    }
}

/// `s` without its trailing whitespace.
pub open spec fn trim_end(s: Seq<char>) -> Seq<char>
    decreases s.len(),
{
    if s.len() > 0 && is_whitespace(s.last()) {
        trim_end(s.drop_last())
    } else {
        s
    }
}

/// `s` without leading and trailing whitespace.
pub open spec fn trim(s: Seq<char>) -> Seq<char> {
    trim_end(trim_start(s))
}

/// Whether `c` is whitespace.
pub fn char_is_whitespace(c: char) -> (b: bool)
    ensures
        b == is_whitespace(c),
{
    let v = c as u32;
    (0x09 <= v && v <= 0x0d) || v == 0x20 || v == 0x85 || v == 0xa0 || v == 0x1680 || (0x2000 <= v
        && v <= 0x200a) || v == 0x2028 || v == 0x2029 || v == 0x202f || v == 0x205f || v == 0x3000
}

/// The characters of `s` without leading and trailing whitespace.
pub fn trim_chars(s: &[char]) -> (r: Vec<char>)
    ensures
        r@ == trim(s@),
{
    let mut start: usize = 0;
    assert(s@.skip(0) =~= s@);
    while start < s.len() && char_is_whitespace(s[start])
        invariant
            start <= s@.len(),
            s@.len() == s.len(),
            trim_start(s@) == trim_start(s@.skip(start as int)),
        decreases s@.len() - start,
    {
        assert(s@.skip(start as int).drop_first() =~= s@.skip(start + 1));
        start = start + 1;
    }
    let mut end: usize = s.len();
    assert(s@.skip(start as int) =~= s@.subrange(start as int, end as int));
    while end > start && char_is_whitespace(s[end - 1])
        invariant
            start <= end <= s@.len(),
            s@.len() == s.len(),
            start < s@.len() ==> !is_whitespace(s@[start as int]),
            trim(s@) == trim_end(s@.subrange(start as int, end as int)),
        decreases end,
    {
        assert(s@.subrange(start as int, end as int).drop_last() =~= s@.subrange(
            start as int,
            end - 1,
        ));
        end = end - 1;
    }
    let mut r: Vec<char> = Vec::new();
    let mut i = start;
    while i < end
        invariant
            start <= i <= end <= s@.len(),
            s@.len() == s.len(),
            r@ == s@.subrange(start as int, i as int),
        decreases end - i,
    {
        r.push(s[i]);
        i = i + 1;
        assert(r@ =~= s@.subrange(start as int, i as int));
    }
    r
}

/// A string slice without leading and trailing whitespace, as `str::trim` gives it.
pub fn trim_str(s: &str) -> (r: String)
    ensures
        r@ == trim(s@),
{
    let chars = chars_of(s);
    let t = trim_chars(chars.as_slice());
    string_of(t.as_slice())
}

/// Appends characters to a vector.
pub fn extend_chars(dst: &mut Vec<char>, src: &[char])
    ensures
        final(dst)@ == old(dst)@ + src@,
{
    let mut i: usize = 0;
    while i < src.len()
        invariant
            i <= src@.len(),
            dst@ == old(dst)@ + src@.take(i as int),
        decreases src@.len() - i,
    {
        dst.push(src[i]);
        i = i + 1;
        assert(dst@ =~= old(dst)@ + src@.take(i as int));
    }
    assert(src@.take(src@.len() as int) =~= src@);
}

} // verus!

verus! {

/// The decimal digit for `d`.
pub open spec fn digit_char(d: nat) -> char {
    ((d + 48) as u32) as char
}

/// The decimal representation of `n`, as `Display` writes integers.
pub open spec fn decimal(n: nat) -> Seq<char>
    decreases n,
{
    if n < 10 {
        seq![digit_char(n)]
    } else {
        decimal(n / 10).push(digit_char(n % 10))
    }
}

fn push_decimal(s: &mut Vec<char>, n: u64)
    ensures
        final(s)@ == old(s)@ + decimal(n as nat),
    decreases n,
{
    if n >= 10 {
        push_decimal(s, n / 10);
    }
    let d = (n % 10) as u32;
    let c = char_from_digit(d);
    s.push(c);
    assert(s@ =~= old(s)@ + decimal(n as nat));
}

fn char_from_digit(d: u32) -> (c: char)
    requires
        d < 10,
    ensures
        c == digit_char(d as nat),
{
    if d == 0 { '0' }
    else if d == 1 { '1' }
    else if d == 2 { '2' }
    else if d == 3 { '3' }
    else if d == 4 { '4' }
    else if d == 5 { '5' }
    else if d == 6 { '6' }
    else if d == 7 { '7' }
    else if d == 8 { '8' }
    else { '9' }
}

/// The decimal representation of `n`.
pub fn decimal_string(n: u64) -> (s: String)
    ensures
        s@ == decimal(n as nat),
{
    let mut v: Vec<char> = Vec::new();
    push_decimal(&mut v, n);
    assert(v@ =~= decimal(n as nat));
    string_of(v.as_slice())
}

} // verus!

verus! {

/// `prefix` followed by `s`.
pub fn prefixed(prefix: &str, s: &str) -> (r: String)
    ensures
        r@ == prefix@ + s@,
{
    let mut r = String::from_str(prefix);
    r.append(s);
    r
}

} // verus!

verus! {

/// A first occurrence found by other means is the one `find` reports.
pub proof fn lemma_find_first(s: Seq<char>, pat: Seq<char>, k: int)
    requires
        occurs_at(s, pat, k),
        forall|j: int| 0 <= j < k ==> !occurs_at(s, pat, j),
    ensures
        find(s, pat) == Some(k),
{
    lemma_find(s, pat);
    if find(s, pat) is None {
        assert(!occurs_at(s, pat, k));
    } else {
        let f = find(s, pat)->0;
        if f < k {
            assert(!occurs_at(s, pat, f));
        } else if f > k {
            assert(!occurs_at(s, pat, k));
        }
    }
}

/// Without any occurrence, `find` reports none.
pub proof fn lemma_find_none(s: Seq<char>, pat: Seq<char>)
    requires
        forall|j: int| !occurs_at(s, pat, j),
    ensures
        find(s, pat) is None,
{
    lemma_find(s, pat);
    if find(s, pat) is Some {
        let f = find(s, pat)->0;
        assert(occurs_at(s, pat, f));
    }
}

/// The line-feed character as a one-character pattern.
pub open spec fn newline() -> Seq<char> {
    seq!['\n']
}

/// The complete lines of `s`: the text before each line feed, in order.
pub open spec fn complete_lines(s: Seq<char>) -> Seq<Seq<char>>
    decreases s.len(),
{
    match find(s, newline()) {
        Some(i) => {
            proof {
                lemma_find(s, newline());
            }
            seq![s.take(i)] + complete_lines(s.skip(i + 1))
        },
        None => Seq::empty(),
    }
}

/// What follows the last line feed of `s` (all of `s` when it has none).
pub open spec fn after_last_line(s: Seq<char>) -> Seq<char>
    decreases s.len(),
{
    match find(s, newline()) {
        Some(i) => {
            proof {
                lemma_find(s, newline());
            }
            after_last_line(s.skip(i + 1))
        },
        None => s,
    }
}

} // verus!

verus! {

/// A single-character pattern occurs exactly where that character is.
pub proof fn lemma_occurs_char(s: Seq<char>, c: char, j: int)
    ensures
        occurs_at(s, seq![c], j) <==> (0 <= j < s.len() && s[j] == c),
{
    if 0 <= j < s.len() {
        if s[j] == c {
            assert(s.subrange(j, j + 1) =~= seq![c]);
        } else {
            assert(s.subrange(j, j + 1)[0] != seq![c][0]);
        }
    }
}

/// Splits the complete lines off `buffer`, leaving the text after the last line feed.
pub fn take_lines(buffer: &mut String) -> (lines: Vec<String>)
    ensures
        lines@.map_values(|l: String| l@) == complete_lines(old(buffer)@),
        final(buffer)@ == after_last_line(old(buffer)@),
{
    let chars = chars_of(buffer.as_str());
    let ghost s = chars@;
    let mut lines: Vec<String> = Vec::new();
    let mut start: usize = 0;
    let mut idx: usize = 0;
    assert(s.skip(0) =~= s);
    assert(lines@.map_values(|l: String| l@) + complete_lines(s) =~= complete_lines(s));
    while idx < chars.len()
        invariant
            start <= idx <= s.len(),
            chars@ == s,
            chars@.len() == chars.len(),
            complete_lines(s) == lines@.map_values(|l: String| l@) + complete_lines(
                s.skip(start as int),
            ),
            after_last_line(s) == after_last_line(s.skip(start as int)),
            forall|t: int| start <= t < idx ==> s[t] != '\n',
        decreases s.len() - idx,
    {
        if chars[idx] == '\n' {
            let ghost rest = s.skip(start as int);
            let k = idx - start;
            proof {
                assert forall|j: int| 0 <= j < k implies !occurs_at(rest, newline(), j) by {
                    lemma_occurs_char(rest, '\n', j);
                }
                lemma_occurs_char(rest, '\n', k as int);
                lemma_find_first(rest, newline(), k as int);
                assert(rest.skip(k + 1) =~= s.skip(idx + 1));
                assert(rest.take(k as int) =~= s.subrange(start as int, idx as int));
            }
            let line = string_of(slice_subrange(chars.as_slice(), start, idx));
            let ghost old_lines = lines@.map_values(|l: String| l@);
            lines.push(line);
            assert(lines@.map_values(|l: String| l@) =~= old_lines.push(
                s.subrange(start as int, idx as int),
            ));
            start = idx + 1;
        }
        idx = idx + 1;
    }
    let ghost rest = s.skip(start as int);
    proof {
        assert forall|j: int| !occurs_at(rest, newline(), j) by {
            lemma_occurs_char(rest, '\n', j);
        }
        lemma_find_none(rest, newline());
        assert(lines@.map_values(|l: String| l@) + complete_lines(rest) =~= lines@.map_values(
            |l: String| l@,
        ));
    }
    *buffer = string_of(slice_subrange(chars.as_slice(), start, chars.len()));
    assert(buffer@ =~= rest);
    lines
}

} // verus!

verus! {

/// Lines written back with a line feed after each.
pub open spec fn terminated_lines(ls: Seq<Seq<char>>) -> Seq<char>
    decreases ls.len(),
{
    if ls.len() == 0 {
        Seq::empty()
    } else {
        ls[0] + newline() + terminated_lines(ls.drop_first())
    }
}

/// Law of line splitting: nothing is lost or added. The complete lines, each followed by
/// a line feed, and then the remainder give back the text; no line holds a line feed,
/// and neither does the remainder.
pub proof fn lemma_lines_reassemble(s: Seq<char>)
    ensures
        terminated_lines(complete_lines(s)) + after_last_line(s) == s,
        forall|i: int| 0 <= i < complete_lines(s).len() ==> lacks_newline(#[trigger] complete_lines(s)[i]),
        lacks_newline(after_last_line(s)),
    decreases s.len(),
{
    lemma_find(s, newline());
    match find(s, newline()) {
        Some(i) => {
            lemma_lines_reassemble(s.skip(i + 1));
            let ls = complete_lines(s);
            assert(ls.drop_first() =~= complete_lines(s.skip(i + 1)));
            assert(s =~= s.take(i) + newline() + s.skip(i + 1)) by {
                lemma_occurs_char(s, '\n', i);
            }
            assert(terminated_lines(ls) + after_last_line(s) =~= s.take(i) + newline() + (
            terminated_lines(complete_lines(s.skip(i + 1))) + after_last_line(s.skip(i + 1))));
            assert forall|t: int| 0 <= t < i implies s.take(i)[t] != '\n' by {
                lemma_occurs_char(s, '\n', t);
            }
            assert forall|k: int| 0 <= k < ls.len() implies lacks_newline(#[trigger] ls[k]) by {
                if k > 0 {
                    assert(ls[k] == complete_lines(s.skip(i + 1))[k - 1]);
                }
            }
        },
        None => {
            assert forall|t: int| 0 <= t < s.len() implies s[t] != '\n' by {
                lemma_occurs_char(s, '\n', t);
            }
            assert(terminated_lines(complete_lines(s)) + after_last_line(s) =~= s);
        },
    }
}

/// `s` holds no line feed.
pub open spec fn lacks_newline(s: Seq<char>) -> bool {
    forall|i: int| 0 <= i < s.len() ==> s[i] != '\n'
}

} // verus!

verus! {

/// The lines among `ls` that are not empty, in order.
pub open spec fn nonempty_lines(ls: Seq<Seq<char>>) -> Seq<Seq<char>>
    decreases ls.len(),
{
    if ls.len() == 0 {
        Seq::empty()
    } else {
        nonempty_lines(ls.drop_last()) + if ls.last().len() > 0 {
            seq![ls.last()]
        } else {
            Seq::<Seq<char>>::empty()
        }
    }
}

/// Keeps the lines that are not empty.
pub fn drop_empty_lines(lines: &Vec<String>) -> (r: Vec<String>)
    ensures
        r@.map_values(|l: String| l@) == nonempty_lines(lines@.map_values(|l: String| l@)),
{
    let ghost ls = lines@.map_values(|l: String| l@);
    let mut r: Vec<String> = Vec::new();
    let mut i: usize = 0;
    while i < lines.len()
        invariant
            i <= lines@.len(),
            ls == lines@.map_values(|l: String| l@),
            r@.map_values(|l: String| l@) == nonempty_lines(ls.take(i as int)),
        decreases lines@.len() - i,
    {
        let ghost before = r@.map_values(|l: String| l@);
        assert(ls.take(i + 1).drop_last() =~= ls.take(i as int));
        assert(ls.take(i + 1).last() == lines@[i as int]@);
        if !lines[i].as_str().is_empty() {
            r.push(lines[i].clone());
            assert(r@.map_values(|l: String| l@) =~= before.push(lines@[i as int]@));
        } else {
            assert(before + Seq::<Seq<char>>::empty() =~= before);
        }
        i = i + 1;
    }
    assert(ls.take(lines@.len() as int) =~= ls);
    r
}

} // verus!

verus! {

/// `pat` occurs somewhere in `s`.
pub open spec fn contains(s: Seq<char>, pat: Seq<char>) -> bool {
    find(s, pat) is Some
}

/// Whether `pat` occurs in `s`.
pub fn str_contains(s: &str, pat: &str) -> (b: bool)
    ensures
        b == contains(s@, pat@),
{
    let sc = chars_of(s);
    let pc = chars_of(pat);
    find_chars(sc.as_slice(), pc.as_slice()).is_some()
}

/// The lowercase form of a string, as `str::to_lowercase` computes it under the Unicode
/// `Lowercase` property.
pub uninterp spec fn lowercase(s: Seq<char>) -> Seq<char>;

/// `str::to_lowercase`. The contract claims only that the result is the one named by
/// `lowercase` for the argument's characters.
#[verifier::external_body]
pub(crate) fn to_lowercase(s: &str) -> (r: String)
    ensures
        r@ == lowercase(s@),
{
    s.to_lowercase()
}

/// Whether `s` equals `t` character for character.
pub fn str_eq(s: &str, t: &str) -> (b: bool)
    ensures
        b == (s@ == t@),
{
    let sc = chars_of(s);
    let tc = chars_of(t);
    if sc.len() != tc.len() {
        return false;
    }
    let mut i: usize = 0;
    while i < sc.len()
        invariant
            sc@ == s@,
            tc@ == t@,
            sc@.len() == tc@.len(),
            sc@.len() == sc.len(),
            i <= sc@.len(),
            forall|j: int| 0 <= j < i ==> sc@[j] == tc@[j],
        decreases sc@.len() - i,
    {
        if sc[i] != tc[i] {
            return false;
        }
        i = i + 1;
    }
    assert(sc@ =~= tc@);
    true
}

/// `s` without the copies of `c` at its end.
pub open spec fn strip_trailing(s: Seq<char>, c: char) -> Seq<char>
    decreases s.len(),
{
    if s.len() > 0 && s.last() == c {
        strip_trailing(s.drop_last(), c)
    } else {
        s
    }
}

/// A string slice without the copies of `c` at its end, as `str::trim_end_matches` gives
/// it for a character.
pub fn trim_end_char(s: &str, c: char) -> (r: String)
    ensures
        r@ == strip_trailing(s@, c),
{
    let v = chars_of(s);
    let mut end: usize = v.len();
    assert(v@.take(end as int) =~= v@);
    while end > 0 && v[end - 1] == c
        invariant
            end <= v@.len(),
            v@.len() == v.len(),
            strip_trailing(s@, c) == strip_trailing(v@.take(end as int), c),
            v@ == s@,
        decreases end,
    {
        assert(v@.take(end as int).drop_last() =~= v@.take(end - 1));
        end = end - 1;
    }
    string_of(slice_subrange(v.as_slice(), 0, end))
}

} // verus!

verus! {

/// Whether the characters in `s` begin with the characters in `prefix`.
pub fn chars_start_with(s: &[char], prefix: &[char]) -> (b: bool)
    ensures
        b == starts_with(s@, prefix@),
{
    if prefix.len() > s.len() {
        return false;
    }
    let mut i: usize = 0;
    while i < prefix.len()
        invariant
            prefix@.len() <= s@.len(),
            s@.len() == s.len(),
            prefix@.len() == prefix.len(),
            i <= prefix@.len(),
            forall|j: int| 0 <= j < i ==> s@[j] == prefix@[j],
        decreases prefix@.len() - i,
    {
        if s[i] != prefix[i] {
            assert(s@.subrange(0, prefix@.len() as int)[i as int] != prefix@[i as int]);
            return false;
        }
        i = i + 1;
    }
    assert(s@.subrange(0, prefix@.len() as int) =~= prefix@);
    true
}

} // verus!

verus! {

/// `l` without one carriage return at its end.
pub open spec fn strip_cr(l: Seq<char>) -> Seq<char> {
    if l.len() > 0 && l.last() == '\r' {
        l.drop_last()
    } else {
        l
    }
}

/// The lines of `s` as `str::lines` yields them: split at each line feed, a carriage
/// return just before the line feed dropped, and no empty line after a final line feed.
pub open spec fn lines(s: Seq<char>) -> Seq<Seq<char>>
    decreases s.len(),
{
    if s.len() == 0 {
        Seq::empty()
    } else {
        match find(s, newline()) {
            Some(i) => {
                proof {
                    lemma_find(s, newline());
                }
                seq![strip_cr(s.take(i))] + lines(s.skip(i + 1))
            },
            None => seq![s],
        }
    }
}

fn strip_cr_chars(v: &[char]) -> (r: Vec<char>)
    ensures
        r@ == strip_cr(v@),
{
    let mut end = v.len();
    if end > 0 && v[end - 1] == '\r' {
        end = end - 1;
    }
    let r = slice_to_vec(slice_subrange(v, 0, end));
    r
}

fn slice_to_vec(v: &[char]) -> (r: Vec<char>)
    ensures
        r@ == v@,
{
    let mut r: Vec<char> = Vec::new();
    extend_chars(&mut r, v);
    assert(r@ =~= v@);
    r
}

/// The lines of a string slice, as `str::lines` yields them.
pub fn lines_of(s: &str) -> (r: Vec<Vec<char>>)
    ensures
        r@.map_values(|l: Vec<char>| l@) == lines(s@),
{
    let chars = chars_of(s);
    let ghost t = chars@;
    let mut r: Vec<Vec<char>> = Vec::new();
    let mut start: usize = 0;
    let mut idx: usize = 0;
    assert(t.skip(0) =~= t);
    assert(r@.map_values(|l: Vec<char>| l@) + lines(t) =~= lines(t));
    while idx < chars.len()
        invariant
            start <= idx <= t.len(),
            chars@ == t,
            t == s@,
            chars@.len() == chars.len(),
            lines(t) == r@.map_values(|l: Vec<char>| l@) + lines(t.skip(start as int)),
            forall|j: int| start <= j < idx ==> t[j] != '\n',
        decreases t.len() - idx,
    {
        if chars[idx] == '\n' {
            let ghost rest = t.skip(start as int);
            let k = idx - start;
            proof {
                assert forall|j: int| 0 <= j < k implies !occurs_at(rest, newline(), j) by {
                    lemma_occurs_char(rest, '\n', j);
                }
                lemma_occurs_char(rest, '\n', k as int);
                lemma_find_first(rest, newline(), k as int);
                assert(rest.skip(k + 1) =~= t.skip(idx + 1));
                assert(rest.take(k as int) =~= t.subrange(start as int, idx as int));
            }
            let line = strip_cr_chars(slice_subrange(chars.as_slice(), start, idx));
            let ghost before = r@.map_values(|l: Vec<char>| l@);
            r.push(line);
            assert(r@.map_values(|l: Vec<char>| l@) =~= before.push(
                strip_cr(t.subrange(start as int, idx as int)),
            ));
            start = idx + 1;
        }
        idx = idx + 1;
    }
    let ghost rest = t.skip(start as int);
    if start < chars.len() {
        proof {
            assert forall|j: int| !occurs_at(rest, newline(), j) by {
                lemma_occurs_char(rest, '\n', j);
            }
            lemma_find_none(rest, newline());
        }
        let last = slice_to_vec(slice_subrange(chars.as_slice(), start, chars.len()));
        let ghost before = r@.map_values(|l: Vec<char>| l@);
        r.push(last);
        assert(last@ =~= rest);
        assert(r@.map_values(|l: Vec<char>| l@) =~= before + lines(rest));
    } else {
        assert(rest.len() == 0);
        assert(r@.map_values(|l: Vec<char>| l@) + lines(rest) =~= r@.map_values(
            |l: Vec<char>| l@,
        ));
    }
    r
}

} // verus!
