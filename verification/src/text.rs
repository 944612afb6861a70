//! Character-level text utilities shared by the collectors and the renderer.
//!
//! All internal text manipulation works on `Vec<char>` so that contracts can
//! speak uniformly of `Seq<char>`, the view of both `String` and `&str`.

use vstd::prelude::*;
use vstd::string::StrSliceExecFns;

verus! {

/// The characters of a string slice, as an executable vector.
#[verifier::loop_isolation(false)]
pub fn chars_of(s: &str) -> (r: Vec<char>)
    ensures
        r@ == s@,
{
    let n: usize = s.unicode_len();
    let mut r: Vec<char> = Vec::new();
    let mut i: usize = 0;
    while i < n
        invariant
            i <= n,
            n == s@.len(),
            r@ == s@.take(i as int),
        decreases n - i,
    {
        let c = s.get_char(i);
        r.push(c);
        i = i + 1;
        proof {
            assert(r@ =~= s@.take(i as int));
        }
    }
    proof {
        assert(r@ =~= s@);
    }
    r
}

/// Relies on `String`'s `FromIterator<char>` implementation: collecting an
/// iterator of characters yields exactly those characters, in order.
#[verifier::external_body]
pub fn string_from_chars(v: &Vec<char>) -> (r: String)
    ensures
        r@ == v@,
{
    v.iter().collect()
}

/// Whether two string slices hold the same characters.
pub fn str_eq(a: &str, b: &str) -> (r: bool)
    ensures
        r == (a@ == b@),
{
    let av = chars_of(a);
    let bv = chars_of(b);
    chars_eq(&av, &bv)
}

/// Whether two character vectors are equal.
#[verifier::loop_isolation(false)]
pub fn chars_eq(a: &Vec<char>, b: &Vec<char>) -> (r: bool)
    ensures
        r == (a@ == b@),
{
    if a.len() != b.len() {
        return false;
    }
    let n: usize = a.len();
    let mut i: usize = 0;
    while i < n
        invariant
            i <= n,
            n == a@.len(),
            a@.len() == b@.len(),
            forall|k: int| 0 <= k < i ==> a@[k] == b@[k],
        decreases n - i,
    {
        if a[i] != b[i] {
            return false;
        }
        i = i + 1;
    }
    proof {
        assert(a@ =~= b@);
    }
    true
}

/// A `String` holding the given characters.
pub fn string_of(v: Vec<char>) -> (r: String)
    ensures
        r@ == v@,
{
    string_from_chars(&v)
}

/// Appends the characters of `s` to `out`.
#[verifier::loop_isolation(false)]
pub fn push_str_chars(out: &mut Vec<char>, s: &str)
    ensures
        final(out)@ == old(out)@ + s@,
{
    let cs = chars_of(s);
    let mut i: usize = 0;
    let n: usize = cs.len();
    while i < n
        invariant
            i <= n,
            n == cs@.len(),
            cs@ == s@,
            out@ == old(out)@ + s@.take(i as int),
        decreases n - i,
    {
        out.push(cs[i]);
        i = i + 1;
        proof {
            assert(old(out)@ + s@.take(i as int) =~= (old(out)@ + s@.take(i - 1)).push(s@[i - 1]));
        }
    }
    proof {
        assert(old(out)@ + s@.take(n as int) =~= old(out)@ + s@);
    }
}

/// Appends all characters of `more` to `out`.
#[verifier::loop_isolation(false)]
pub fn push_chars(out: &mut Vec<char>, more: &Vec<char>)
    ensures
        final(out)@ == old(out)@ + more@,
{
    let mut i: usize = 0;
    let n: usize = more.len();
    while i < n
        invariant
            i <= n,
            n == more@.len(),
            out@ == old(out)@ + more@.take(i as int),
        decreases n - i,
    {
        out.push(more[i]);
        i = i + 1;
        proof {
            assert(old(out)@ + more@.take(i as int) =~= (old(out)@ + more@.take(i - 1)).push(
                more@[i - 1],
            ));
        }
    }
    proof {
        assert(old(out)@ + more@.take(n as int) =~= old(out)@ + more@);
    }
}

/// Lexicographic order on character sequences by code point, the order that
/// sorting repository paths and commands uses.
pub open spec fn lex_le(a: Seq<char>, b: Seq<char>) -> bool
    decreases a.len(),
{
    if a.len() == 0 {
        true
    } else if b.len() == 0 {
        false
    } else if a[0] == b[0] {
        lex_le(a.drop_first(), b.drop_first())
    } else {
        (a[0] as u32) < (b[0] as u32)
    }
}

/// The order is total.
pub proof fn lemma_lex_le_total(a: Seq<char>, b: Seq<char>)
    ensures
        lex_le(a, b) || lex_le(b, a),
    decreases a.len(),
{
    if a.len() > 0 && b.len() > 0 {
        if a[0] == b[0] {
            lemma_lex_le_total(a.drop_first(), b.drop_first());
        } else {
            vstd::utf8::char_u32_cast(a[0], a[0] as u32);
            vstd::utf8::char_u32_cast(b[0], b[0] as u32);
        }
    }
}

/// The order is transitive.
pub proof fn lemma_lex_le_trans(a: Seq<char>, b: Seq<char>, c: Seq<char>)
    requires
        lex_le(a, b),
        lex_le(b, c),
    ensures
        lex_le(a, c),
    decreases a.len(),
{
    if a.len() > 0 && b.len() > 0 && c.len() > 0 {
        if a[0] == b[0] && b[0] == c[0] {
            lemma_lex_le_trans(a.drop_first(), b.drop_first(), c.drop_first());
        }
    }
}

/// Equal prefixes do not affect the order of what follows them.
proof fn lemma_lex_le_skip(a: Seq<char>, b: Seq<char>, i: int)
    requires
        0 <= i <= a.len(),
        i <= b.len(),
        a.subrange(0, i) == b.subrange(0, i),
    ensures
        lex_le(a, b) == lex_le(a.skip(i), b.skip(i)),
    decreases i,
{
    if i > 0 {
        assert(a.subrange(0, i)[0] == a[0]);
        assert(b.subrange(0, i)[0] == b[0]);
        assert forall|k: int| 0 <= k < i - 1 implies #[trigger] a.drop_first().subrange(0, i - 1)[k]
            == b.drop_first().subrange(0, i - 1)[k] by {
            assert(a.drop_first().subrange(0, i - 1)[k] == a.drop_first()[k]);
            assert(a.drop_first()[k] == a[k + 1]);
            assert(b.drop_first().subrange(0, i - 1)[k] == b.drop_first()[k]);
            assert(b.drop_first()[k] == b[k + 1]);
            assert(a.subrange(0, i)[k + 1] == a[k + 1]);
            assert(b.subrange(0, i)[k + 1] == b[k + 1]);
            assert(a.subrange(0, i)[k + 1] == b.subrange(0, i)[k + 1]);
        }
        assert(a.drop_first().subrange(0, i - 1) =~= b.drop_first().subrange(0, i - 1));
        lemma_lex_le_skip(a.drop_first(), b.drop_first(), i - 1);
        assert(a.drop_first().skip(i - 1) =~= a.skip(i));
        assert(b.drop_first().skip(i - 1) =~= b.skip(i));
    } else {
        assert(a.skip(0) =~= a);
        assert(b.skip(0) =~= b);
    }
}

/// Compares two character vectors lexicographically.
#[verifier::loop_isolation(false)]
pub fn chars_le(a: &Vec<char>, b: &Vec<char>) -> (r: bool)
    ensures
        r == lex_le(a@, b@),
{
    let mut i: usize = 0;
    loop
        invariant
            i <= a@.len(),
            i <= b@.len(),
            a@.subrange(0, i as int) == b@.subrange(0, i as int),
        decreases a@.len() - i,
    {
        proof {
            lemma_lex_le_skip(a@, b@, i as int);
        }
        if i == a.len() {
            return true;
        }
        if i == b.len() {
            proof {
                assert(a@.skip(i as int).len() > 0);
            }
            return false;
        }
        let ca = a[i];
        let cb = b[i];
        if ca != cb {
            proof {
                assert(a@.skip(i as int)[0] == a@[i as int]);
                assert(b@.skip(i as int)[0] == b@[i as int]);
            }
            return (ca as u32) < (cb as u32);
        }
        i = i + 1;
        proof {
            assert(a@.subrange(0, i as int) =~= b@.subrange(0, i as int));
        }
    }
}

/// Compares two string slices lexicographically by character.
pub fn str_le(a: &str, b: &str) -> (r: bool)
    ensures
        r == lex_le(a@, b@),
{
    let av = chars_of(a);
    let bv = chars_of(b);
    chars_le(&av, &bv)
}

/// A string sequence sorted lexicographically.
pub open spec fn strings_sorted(s: Seq<String>) -> bool {
    forall|i: int, j: int| 0 <= i < j < s.len() ==> lex_le(s[i]@, s[j]@)
}

/// The views of a sequence of strings.
pub open spec fn string_views(s: Seq<String>) -> Seq<Seq<char>> {
    s.map_values(|x: String| x@)
}

/// Inserts a string into an already sorted vector, keeping it sorted.
#[verifier::loop_isolation(false)]
pub fn insert_sorted(r: &mut Vec<String>, s: String)
    requires
        strings_sorted(old(r)@),
    ensures
        strings_sorted(final(r)@),
        string_views(final(r)@).to_multiset() == string_views(old(r)@).to_multiset().insert(s@),
{
    let mut j: usize = 0;
    loop
        invariant
            j <= r@.len(),
            forall|k: int| 0 <= k < j ==> lex_le(r@[k]@, s@),
        decreases r@.len() - j,
    {
        if j == r.len() {
            break ;
        }
        if !str_le(r[j].as_str(), s.as_str()) {
            break ;
        }
        j = j + 1;
    }
    proof {
        assert(j < r@.len() ==> !lex_le(r@[j as int]@, s@));
    }
    let ghost prev = r@;
    r.insert(j, s);
    proof {
        broadcast use vstd::seq_lib::to_multiset_insert;

        assert(string_views(r@) =~= string_views(prev).insert(j as int, s@));
        assert(string_views(r@).to_multiset() =~= string_views(prev).to_multiset().insert(s@));
        assert forall|x: int, y: int| 0 <= x < y < r@.len() implies lex_le(r@[x]@, r@[y]@) by {
            let ji = j as int;
            if y == ji {
                assert(lex_le(prev[x]@, s@));
            } else if x == ji {
                lemma_lex_le_total(prev[ji]@, s@);
                if y - 1 > ji {
                    lemma_lex_le_trans(s@, prev[ji]@, prev[y - 1]@);
                }
            } else if x < ji && y > ji {
                assert(lex_le(prev[x]@, prev[y - 1]@));
            }
        }
    }
}

/// Sorts a vector of strings lexicographically by character; the result is a
/// permutation of the input.
#[verifier::loop_isolation(false)]
pub fn sort_strings(v: &Vec<String>) -> (r: Vec<String>)
    ensures
        strings_sorted(r@),
        string_views(r@).to_multiset() == string_views(v@).to_multiset(),
{
    let mut r: Vec<String> = Vec::new();
    let mut i: usize = 0;
    proof {
        assert(string_views(r@) =~= string_views(v@).take(0));
    }
    while i < v.len()
        invariant
            i <= v@.len(),
            strings_sorted(r@),
            string_views(r@).to_multiset() == string_views(v@).take(i as int).to_multiset(),
        decreases v@.len() - i,
    {
        let s = v[i].clone();
        insert_sorted(&mut r, s);
        i = i + 1;
        proof {
            broadcast use vstd::seq_lib::to_multiset_build;

            assert(string_views(v@).take(i as int) =~= string_views(v@).take(i - 1).push(
                v@[i - 1]@,
            ));
        }
    }
    proof {
        assert(string_views(v@).take(v@.len() as int) =~= string_views(v@));
    }
    r
}

/// A copy of a vector of strings.
#[verifier::loop_isolation(false)]
pub fn clone_strings(v: &Vec<String>) -> (r: Vec<String>)
    ensures
        r@ == v@,
{
    let mut r: Vec<String> = Vec::new();
    let mut i: usize = 0;
    while i < v.len()
        invariant
            i <= v@.len(),
            r@ == v@.take(i as int),
        decreases v@.len() - i,
    {
        r.push(v[i].clone());
        i = i + 1;
        proof {
            assert(r@ =~= v@.take(i as int));
        }
    }
    proof {
        assert(v@.take(v@.len() as int) =~= v@);
    }
    r
}

/// The first `n` elements of a vector of strings, or all of them if fewer.
#[verifier::loop_isolation(false)]
pub fn take_strings(v: Vec<String>, n: usize) -> (r: Vec<String>)
    ensures
        r@ == v@.take(if n <= v@.len() { n as int } else { v@.len() as int }),
{
    if v.len() <= n {
        proof {
            assert(v@.take(v@.len() as int) =~= v@);
        }
        return v;
    }
    let mut r: Vec<String> = Vec::new();
    let mut i: usize = 0;
    while i < n
        invariant
            i <= n,
            n <= v@.len(),
            r@ == v@.take(i as int),
        decreases n - i,
    {
        r.push(v[i].clone());
        i = i + 1;
        proof {
            assert(r@ =~= v@.take(i as int));
        }
    }
    r
}

/// The character of a decimal digit.
pub open spec fn digit_char(d: nat) -> char {
    if d == 0 {
        '0'
    } else if d == 1 {
        '1'
    } else if d == 2 {
        '2'
    } else if d == 3 {
        '3'
    } else if d == 4 {
        '4'
    } else if d == 5 {
        '5'
    } else if d == 6 {
        '6'
    } else if d == 7 {
        '7'
    } else if d == 8 {
        '8'
    } else {
        '9'
    }
}

/// The decimal rendering of a natural number, without leading zeros.
pub open spec fn dec_digits(n: nat) -> Seq<char>
    decreases n,
{
    if n < 10 {
        seq![digit_char(n)]
    } else {
        dec_digits(n / 10).push(digit_char(n % 10))
    }
}

fn digit_char_exec(d: usize) -> (c: char)
    requires
        d < 10,
    ensures
        c == digit_char(d as nat),
{
    if d == 0 {
        '0'
    } else if d == 1 {
        '1'
    } else if d == 2 {
        '2'
    } else if d == 3 {
        '3'
    } else if d == 4 {
        '4'
    } else if d == 5 {
        '5'
    } else if d == 6 {
        '6'
    } else if d == 7 {
        '7'
    } else if d == 8 {
        '8'
    } else {
        '9'
    }
}

/// The decimal rendering of a number, as characters.
pub fn usize_to_chars(n: usize) -> (r: Vec<char>)
    ensures
        r@ == dec_digits(n as nat),
    decreases n,
{
    let d = n % 10;
    let c = digit_char_exec(d);
    if n < 10 {
        let mut r: Vec<char> = Vec::new();
        r.push(c);
        proof {
            assert(r@ =~= dec_digits(n as nat));
        }
        r
    } else {
        let mut r = usize_to_chars(n / 10);
        r.push(c);
        r
    }
}

/// ASCII whitespace, the characters the collectors trim and split on.
pub open spec fn is_ws(c: char) -> bool {
    c == ' ' || c == '\t' || c == '\r' || c == '\n'
}

/// Index of the first occurrence of `c`, or the length if it does not occur.
pub open spec fn find_char(s: Seq<char>, c: char) -> int
    decreases s.len(),
{
    if s.len() == 0 {
        0
    } else if s[0] == c {
        0
    } else {
        1 + find_char(s.drop_first(), c)
    }
}

/// Characterizes [`find_char`] by its first-occurrence property.
pub proof fn lemma_find_char_at(s: Seq<char>, c: char, m: int)
    requires
        0 <= m <= s.len(),
        forall|k: int| 0 <= k < m ==> s[k] != c,
        m < s.len() ==> s[m] == c,
    ensures
        find_char(s, c) == m,
    decreases m,
{
    if s.len() > 0 {
        if m > 0 {
            assert(forall|k: int| 0 <= k < m - 1 ==> s.drop_first()[k] == s[k + 1]);
            lemma_find_char_at(s.drop_first(), c, m - 1);
        }
    }
}

/// Index of the first whitespace character, or the length if there is none.
pub open spec fn find_ws(s: Seq<char>) -> int
    decreases s.len(),
{
    if s.len() == 0 {
        0
    } else if is_ws(s[0]) {
        0
    } else {
        1 + find_ws(s.drop_first())
    }
}

/// Characterizes [`find_ws`] by its first-occurrence property.
pub proof fn lemma_find_ws_at(s: Seq<char>, m: int)
    requires
        0 <= m <= s.len(),
        forall|k: int| 0 <= k < m ==> !is_ws(s[k]),
        m < s.len() ==> is_ws(s[m]),
    ensures
        find_ws(s) == m,
    decreases m,
{
    if s.len() > 0 {
        if m > 0 {
            assert(forall|k: int| 0 <= k < m - 1 ==> s.drop_first()[k] == s[k + 1]);
            lemma_find_ws_at(s.drop_first(), m - 1);
        }
    }
}

/// A line with a carriage return left by a CRLF ending stripped.
pub open spec fn strip_cr(s: Seq<char>) -> Seq<char> {
    if s.len() > 0 && s.last() == '\r' {
        s.drop_last()
    } else {
        s
    }
}

/// The lines of a text: split at newlines, a carriage return before a
/// newline stripped, and no final empty line when the text ends with a
/// newline.
pub open spec fn split_lines(s: Seq<char>) -> Seq<Seq<char>>
    decreases s.len(),
{
    if s.len() == 0 {
        Seq::empty()
    } else {
        let i = find_char(s, '\n');
        if !(0 <= i < s.len()) {
            seq![s]
        } else {
            seq![strip_cr(s.take(i))] + split_lines(s.skip(i + 1))
        }
    }
}

/// The characters of `v` between the given positions.
#[verifier::loop_isolation(false)]
pub fn sub_chars(v: &Vec<char>, from: usize, to: usize) -> (r: Vec<char>)
    requires
        from <= to <= v@.len(),
    ensures
        r@ == v@.subrange(from as int, to as int),
{
    let mut r: Vec<char> = Vec::new();
    let mut i: usize = from;
    while i < to
        invariant
            from <= i <= to,
            r@ == v@.subrange(from as int, i as int),
        decreases to - i,
    {
        r.push(v[i]);
        i = i + 1;
        proof {
            assert(r@ =~= v@.subrange(from as int, i as int));
        }
    }
    r
}

/// Splits a text into its lines, as [`split_lines`] describes.
#[verifier::loop_isolation(false)]
pub fn split_lines_exec(s: &str) -> (r: Vec<String>)
    ensures
        string_views(r@) == split_lines(s@),
{
    let cs = chars_of(s);
    let n: usize = cs.len();
    let mut r: Vec<String> = Vec::new();
    let mut pos: usize = 0;
    proof {
        assert(string_views(r@) =~= Seq::<Seq<char>>::empty());
        assert(s@.skip(0) =~= s@);
    }
    while pos < n
        invariant
            pos <= n,
            n == s@.len(),
            cs@ == s@,
            split_lines(s@) == string_views(r@) + split_lines(s@.skip(pos as int)),
        decreases n - pos,
    {
        let ghost t = s@.skip(pos as int);
        let mut j: usize = pos;
        while j < n && cs[j] != '\n'
            invariant
                pos <= j <= n,
                forall|k: int| pos <= k < j ==> s@[k] != '\n',
            decreases n - j,
        {
            j = j + 1;
        }
        proof {
            assert(forall|k: int| 0 <= k < j - pos ==> t[k] == s@[pos + k]);
            if j < n {
                assert(t[j - pos] == s@[j as int]);
            }
            lemma_find_char_at(t, '\n', j - pos);
        }
        let mut end = j;
        if j < n && end > pos {
            if cs[end - 1] == '\r' {
                end = end - 1;
            }
        }
        let line = sub_chars(&cs, pos, end);
        let ghost rv0 = string_views(r@);
        r.push(string_of(line));
        proof {
            assert(string_views(r@) =~= rv0.push(s@.subrange(pos as int, end as int)));
            if j < n {
                assert(t.take(j - pos) =~= s@.subrange(pos as int, j as int));
                assert(strip_cr(t.take(j - pos)) =~= s@.subrange(pos as int, end as int));
                assert(t.skip(j - pos + 1) =~= s@.skip(j + 1));
                assert(split_lines(t) =~= seq![strip_cr(t.take(j - pos))] + split_lines(
                    s@.skip(j + 1),
                ));
                assert(string_views(r@) + split_lines(s@.skip(j + 1)) =~= rv0 + split_lines(t));
            } else {
                assert(t =~= s@.subrange(pos as int, end as int));
                assert(split_lines(t) =~= seq![t]);
                assert(s@.skip(n as int) =~= Seq::<char>::empty());
                assert(string_views(r@) + split_lines(s@.skip(n as int)) =~= rv0 + split_lines(t));
            }
        }
        pos = if j < n {
            j + 1
        } else {
            n
        };
    }
    proof {
        assert(s@.skip(n as int) =~= Seq::<char>::empty());
        assert(string_views(r@) + split_lines(s@.skip(n as int)) =~= string_views(r@));
    }
    r
}

/// How many whitespace characters the text begins with.
pub open spec fn leading_ws(s: Seq<char>) -> int
    decreases s.len(),
{
    if s.len() == 0 {
        0
    } else if is_ws(s[0]) {
        1 + leading_ws(s.drop_first())
    } else {
        0
    }
}

/// How many whitespace characters the text ends with.
pub open spec fn trailing_ws(s: Seq<char>) -> int
    decreases s.len(),
{
    if s.len() == 0 {
        0
    } else if is_ws(s.last()) {
        1 + trailing_ws(s.drop_last())
    } else {
        0
    }
}

/// The text without leading and trailing whitespace.
pub open spec fn trim_spec(s: Seq<char>) -> Seq<char> {
    if leading_ws(s) == s.len() {
        Seq::empty()
    } else {
        s.subrange(leading_ws(s), s.len() - trailing_ws(s))
    }
}

/// Characterizes [`leading_ws`] by its run property.
pub proof fn lemma_leading_ws_at(s: Seq<char>, m: int)
    requires
        0 <= m <= s.len(),
        forall|k: int| 0 <= k < m ==> is_ws(s[k]),
        m < s.len() ==> !is_ws(s[m]),
    ensures
        leading_ws(s) == m,
    decreases m,
{
    if s.len() > 0 && m > 0 {
        assert(forall|k: int| 0 <= k < m - 1 ==> s.drop_first()[k] == s[k + 1]);
        if m < s.len() {
            assert(s.drop_first()[m - 1] == s[m]);
        }
        lemma_leading_ws_at(s.drop_first(), m - 1);
    }
}

/// Characterizes [`trailing_ws`] by its run property.
pub proof fn lemma_trailing_ws_at(s: Seq<char>, m: int)
    requires
        0 <= m <= s.len(),
        forall|k: int| s.len() - m <= k < s.len() ==> is_ws(s[k]),
        m < s.len() ==> !is_ws(s[s.len() - m - 1]),
    ensures
        trailing_ws(s) == m,
    decreases m,
{
    if s.len() > 0 && m > 0 {
        assert(forall|k: int| 0 <= k < s.drop_last().len() ==> s.drop_last()[k] == s[k]);
        lemma_trailing_ws_at(s.drop_last(), m - 1);
    }
}

/// Trims ASCII whitespace from both ends.
#[verifier::loop_isolation(false)]
pub fn trim_str(s: &str) -> (r: String)
    ensures
        r@ == trim_spec(s@),
{
    let cs = chars_of(s);
    let n: usize = cs.len();
    let mut i: usize = 0;
    while i < n && (cs[i] == ' ' || cs[i] == '\t' || cs[i] == '\r' || cs[i] == '\n')
        invariant
            i <= n,
            forall|k: int| 0 <= k < i ==> is_ws(s@[k]),
        decreases n - i,
    {
        i = i + 1;
    }
    proof {
        lemma_leading_ws_at(s@, i as int);
    }
    if i == n {
        let empty: Vec<char> = Vec::new();
        let r = string_of(empty);
        proof {
            assert(r@ =~= trim_spec(s@));
        }
        return r;
    }
    let mut e: usize = n;
    while e > i && (cs[e - 1] == ' ' || cs[e - 1] == '\t' || cs[e - 1] == '\r' || cs[e - 1]
        == '\n')
        invariant
            i < e <= n,
            forall|k: int| e <= k < n ==> is_ws(s@[k]),
        decreases e,
    {
        e = e - 1;
    }
    proof {
        lemma_trailing_ws_at(s@, n - e);
    }
    string_of(sub_chars(&cs, i, e))
}

/// The maximal whitespace-free runs of the text, in order.
pub open spec fn ws_tokens(s: Seq<char>) -> Seq<Seq<char>>
    decreases s.len(),
{
    if s.len() == 0 {
        Seq::empty()
    } else if is_ws(s[0]) {
        ws_tokens(s.drop_first())
    } else {
        let i = find_ws(s);
        if !(1 <= i <= s.len()) {
            seq![s]
        } else {
            seq![s.take(i)] + ws_tokens(s.skip(i))
        }
    }
}

/// Splits a text at whitespace, as [`ws_tokens`] describes.
#[verifier::loop_isolation(false)]
pub fn split_ws_exec(s: &str) -> (r: Vec<String>)
    ensures
        string_views(r@) == ws_tokens(s@),
    decreases s@.len(),
{
    let cs = chars_of(s);
    let n: usize = cs.len();
    let mut r: Vec<String> = Vec::new();
    let mut pos: usize = 0;
    proof {
        assert(string_views(r@) =~= Seq::<Seq<char>>::empty());
        assert(s@.skip(0) =~= s@);
    }
    while pos < n
        invariant
            pos <= n,
            n == s@.len(),
            cs@ == s@,
            ws_tokens(s@) == string_views(r@) + ws_tokens(s@.skip(pos as int)),
        decreases n - pos,
    {
        let ghost t = s@.skip(pos as int);
        let c = cs[pos];
        if c == ' ' || c == '\t' || c == '\r' || c == '\n' {
            proof {
                assert(t[0] == s@[pos as int]);
                assert(ws_tokens(t) == ws_tokens(t.drop_first()));
                assert(t.drop_first() =~= s@.skip(pos + 1));
            }
            pos = pos + 1;
        } else {
            let mut j: usize = pos;
            while j < n && !(cs[j] == ' ' || cs[j] == '\t' || cs[j] == '\r' || cs[j] == '\n')
                invariant
                    pos <= j <= n,
                    forall|k: int| pos <= k < j ==> !is_ws(s@[k]),
                decreases n - j,
            {
                j = j + 1;
            }
            proof {
                assert(forall|k: int| 0 <= k < j - pos ==> t[k] == s@[pos + k]);
                if j < n {
                    assert(t[j - pos] == s@[j as int]);
                }
                lemma_find_ws_at(t, j - pos);
            }
            let tok = sub_chars(&cs, pos, j);
            let ghost rv0 = string_views(r@);
            r.push(string_of(tok));
            proof {
                assert(t[0] == s@[pos as int]);
                assert(!is_ws(t[0]));
                assert(t.take(j - pos) =~= s@.subrange(pos as int, j as int));
                assert(t.skip(j - pos) =~= s@.skip(j as int));
                assert(ws_tokens(t) == seq![t.take(find_ws(t))] + ws_tokens(t.skip(find_ws(t))));
                assert(string_views(r@) =~= rv0.push(s@.subrange(pos as int, j as int)));
                assert(string_views(r@) + ws_tokens(s@.skip(j as int)) =~= rv0 + ws_tokens(t));
            }
            pos = j;
        }
    }
    proof {
        assert(s@.skip(n as int) =~= Seq::<char>::empty());
        assert(string_views(r@) + ws_tokens(s@.skip(n as int)) =~= string_views(r@));
    }
    r
}

/// `p` is a leading part of `s`.
pub open spec fn starts_with(s: Seq<char>, p: Seq<char>) -> bool {
    p.len() <= s.len() && s.subrange(0, p.len() as int) == p
}

/// Whether `s` begins with `p`.
#[verifier::loop_isolation(false)]
pub fn starts_with_exec(s: &Vec<char>, p: &Vec<char>) -> (r: bool)
    ensures
        r == starts_with(s@, p@),
{
    if p.len() > s.len() {
        return false;
    }
    let m: usize = p.len();
    let mut i: usize = 0;
    while i < m
        invariant
            i <= m,
            m == p@.len(),
            m <= s@.len(),
            forall|k: int| 0 <= k < i ==> s@[k] == p@[k],
        decreases m - i,
    {
        if s[i] != p[i] {
            proof {
                assert(s@.subrange(0, m as int)[i as int] != p@[i as int]);
            }
            return false;
        }
        i = i + 1;
    }
    proof {
        assert(s@.subrange(0, m as int) =~= p@);
    }
    true
}

/// `n` occurs inside `h` as a contiguous run.
pub open spec fn contains_sub(h: Seq<char>, n: Seq<char>) -> bool {
    exists|i: int| 0 <= i && i + n.len() <= h.len() && #[trigger] h.subrange(i, i + n.len()) == n
}

/// Whether `needle` occurs inside `hay`.
#[verifier::loop_isolation(false)]
pub fn contains_exec(hay: &Vec<char>, needle: &Vec<char>) -> (r: bool)
    ensures
        r == contains_sub(hay@, needle@),
{
    let hl: usize = hay.len();
    let nl: usize = needle.len();
    if nl > hl {
        return false;
    }
    let mut i: usize = 0;
    while i <= hl - nl
        invariant
            nl <= hl,
            hl == hay@.len(),
            nl == needle@.len(),
            i <= hl - nl + 1,
            forall|x: int| 0 <= x < i ==> #[trigger] hay@.subrange(x, x + nl) != needle@,
        decreases hl + 1 - nl - i,
    {
        let mut k: usize = 0;
        while k < nl && hay[i + k] == needle[k]
            invariant
                i + nl <= hl,
                k <= nl,
                forall|x: int| 0 <= x < k ==> hay@[i + x] == needle@[x],
            decreases nl - k,
        {
            k = k + 1;
        }
        if k == nl {
            proof {
                assert(hay@.subrange(i as int, i + nl) =~= needle@);
            }
            return true;
        }
        proof {
            assert(hay@.subrange(i as int, i + nl)[k as int] != needle@[k as int]);
        }
        i = i + 1;
    }
    proof {
        assert forall|x: int| 0 <= x && x + needle@.len() <= hay@.len() implies #[trigger] hay@.subrange(
            x,
            x + needle@.len(),
        ) != needle@ by {
            assert(x < i);
        }
    }
    false
}

/// A run found at a given position witnesses containment.
pub proof fn lemma_contains_at(h: Seq<char>, n: Seq<char>, i: int)
    requires
        0 <= i,
        i + n.len() <= h.len(),
        h.subrange(i, i + n.len()) == n,
    ensures
        contains_sub(h, n),
{
}

/// The text with every repetition of the leading prefix removed.
pub open spec fn strip_all_prefix(s: Seq<char>, p: Seq<char>) -> Seq<char>
    decreases s.len(),
{
    if p.len() > 0 && starts_with(s, p) {
        strip_all_prefix(s.skip(p.len() as int), p)
    } else {
        s
    }
}

/// Removes every repetition of `p` from the front of `s`.
#[verifier::loop_isolation(false)]
pub fn strip_all_prefix_exec(s: &Vec<char>, p: &Vec<char>) -> (r: Vec<char>)
    requires
        p@.len() > 0,
    ensures
        r@ == strip_all_prefix(s@, p@),
{
    let mut cur = sub_chars(s, 0, s.len());
    proof {
        assert(cur@ =~= s@);
    }
    loop
        invariant
            strip_all_prefix(s@, p@) == strip_all_prefix(cur@, p@),
            p@.len() > 0,
        decreases cur@.len(),
    {
        if !starts_with_exec(&cur, p) {
            proof {
                assert(strip_all_prefix(cur@, p@) == cur@);
            }
            return cur;
        }
        let next = sub_chars(&cur, p.len(), cur.len());
        proof {
            assert(next@ =~= cur@.skip(p@.len() as int));
        }
        cur = next;
    }
}

/// The text with every copy of `c` removed from both ends.
pub open spec fn strip_ends(s: Seq<char>, c: char) -> Seq<char>
    decreases s.len(),
{
    if s.len() > 0 && s[0] == c {
        strip_ends(s.drop_first(), c)
    } else if s.len() > 0 && s.last() == c {
        strip_ends(s.drop_last(), c)
    } else {
        s
    }
}

/// Characterizes [`strip_ends`] by the bounds of what remains.
pub proof fn lemma_strip_ends_at(s: Seq<char>, c: char, a: int, b: int)
    requires
        0 <= a <= b <= s.len(),
        forall|k: int| 0 <= k < a ==> s[k] == c,
        forall|k: int| b <= k < s.len() ==> s[k] == c,
        a < b ==> s[a] != c && s[b - 1] != c,
    ensures
        strip_ends(s, c) == s.subrange(a, b),
    decreases s.len(),
{
    if s.len() == 0 {
        assert(s.subrange(a, b) =~= s);
    } else if s[0] == c {
        assert(a >= 1 || a == b) by {
            if a == 0 && a < b {
                assert(s[a] != c);
            }
        }
        if a == b {
            if a == 0 {
                // everything from b on is c, so the whole text is c
                let t = s.drop_first();
                assert(forall|k: int| 0 <= k < t.len() ==> t[k] == s[k + 1]);
                lemma_strip_ends_at(t, c, 0, 0);
                assert(t.subrange(0, 0) =~= s.subrange(a, b));
            } else {
                let t = s.drop_first();
                assert(forall|k: int| 0 <= k < t.len() ==> t[k] == s[k + 1]);
                lemma_strip_ends_at(t, c, a - 1, b - 1);
                assert(t.subrange(a - 1, b - 1) =~= s.subrange(a, b));
            }
        } else {
            let t = s.drop_first();
            assert(forall|k: int| 0 <= k < t.len() ==> t[k] == s[k + 1]);
            lemma_strip_ends_at(t, c, a - 1, b - 1);
            assert(t.subrange(a - 1, b - 1) =~= s.subrange(a, b));
        }
    } else if s.last() == c {
        assert(b <= s.len() - 1 || a == b) by {
            if b == s.len() && a < b {
                assert(s[b - 1] != c);
            }
        }
        let t = s.drop_last();
        assert(forall|k: int| 0 <= k < t.len() ==> t[k] == s[k]);
        if a == b && b == s.len() {
            lemma_strip_ends_at(t, c, a - 1, b - 1);
            assert(t.subrange(a - 1, b - 1) =~= s.subrange(a, b));
        } else {
            lemma_strip_ends_at(t, c, a, b);
            assert(t.subrange(a, b) =~= s.subrange(a, b));
        }
    } else {
        assert(a == 0 && b == s.len()) by {
            if a > 0 {
                assert(s[0] == c);
            }
            if b < s.len() {
                assert(s[s.len() - 1] == c);
            }
        }
        assert(s.subrange(0, s.len() as int) =~= s);
    }
}

/// Removes every copy of `c` from both ends of the characters.
#[verifier::loop_isolation(false)]
pub fn strip_ends_exec(v: &Vec<char>, c: char) -> (r: Vec<char>)
    ensures
        r@ == strip_ends(v@, c),
{
    let n: usize = v.len();
    let mut a: usize = 0;
    while a < n && v[a] == c
        invariant
            a <= n,
            forall|k: int| 0 <= k < a ==> v@[k] == c,
        decreases n - a,
    {
        a = a + 1;
    }
    let mut b: usize = n;
    while b > a && v[b - 1] == c
        invariant
            a <= b <= n,
            forall|k: int| b <= k < n ==> v@[k] == c,
        decreases b,
    {
        b = b - 1;
    }
    proof {
        lemma_strip_ends_at(v@, c, a as int, b as int);
    }
    sub_chars(v, a, b)
}

/// Adjacent equal strings collapsed to one, the pass that follows sorting.
pub open spec fn dedup_views(s: Seq<Seq<char>>) -> Seq<Seq<char>>
    decreases s.len(),
{
    if s.len() == 0 {
        Seq::empty()
    } else if s.len() == 1 {
        s
    } else if s[0] == s[1] {
        dedup_views(s.drop_first())
    } else {
        seq![s[0]] + dedup_views(s.drop_first())
    }
}

/// Collapses adjacent equal strings.
#[verifier::loop_isolation(false)]
pub fn dedup_strings(v: Vec<String>) -> (r: Vec<String>)
    ensures
        string_views(r@) == dedup_views(string_views(v@)),
{
    let vv = v;
    let mut r: Vec<String> = Vec::new();
    let n: usize = vv.len();
    let mut i: usize = 0;
    let ghost sv = string_views(vv@);
    proof {
        assert(sv.skip(0) =~= sv);
        assert(string_views(r@) + dedup_views(sv.skip(0)) =~= dedup_views(sv));
    }
    while i < n
        invariant
            i <= n,
            n == vv@.len(),
            string_views(r@) + dedup_views(sv.skip(i as int)) == dedup_views(sv),
        decreases n - i,
    {
        let ghost before = string_views(r@);
        let ghost t = sv.skip(i as int);
        if i + 1 < n && str_eq(vv[i].as_str(), vv[i + 1].as_str()) {
            proof {
                assert(t[0] == sv[i as int] && t[1] == sv[i + 1]);
                assert(t.drop_first() =~= sv.skip(i + 1));
                assert(dedup_views(t) == dedup_views(sv.skip(i + 1)));
            }
        } else {
            r.push(vv[i].clone());
            proof {
                assert(t[0] == sv[i as int]);
                if i + 1 < n {
                    assert(t[1] == sv[i + 1]);
                }
                assert(t.drop_first() =~= sv.skip(i + 1));
                if t.len() == 1 {
                    assert(dedup_views(sv.skip(i + 1)) =~= Seq::<Seq<char>>::empty());
                    assert(dedup_views(t) =~= seq![t[0]] + dedup_views(sv.skip(i + 1)));
                } else {
                    assert(dedup_views(t) == seq![t[0]] + dedup_views(sv.skip(i + 1)));
                }
                assert(string_views(r@) =~= before.push(sv[i as int]));
                assert(string_views(r@) + dedup_views(sv.skip(i + 1)) =~= before + dedup_views(t));
            }
        }
        i = i + 1;
    }
    proof {
        assert(sv.skip(n as int) =~= Seq::<Seq<char>>::empty());
        assert(dedup_views(sv.skip(n as int)) =~= Seq::<Seq<char>>::empty());
        assert(string_views(r@) + dedup_views(sv.skip(n as int)) =~= string_views(r@));
    }
    r
}

} // verus!
