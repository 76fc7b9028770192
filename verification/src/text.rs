//! Character-level text utilities shared by the tokenizer, the selector
//! parser and the code generators.  Every executable function is specified
//! against a spec-level function over `Seq<char>`.
use vstd::prelude::*;

verus! {

use vstd::string::StrSliceExecFns;

/// Characters removed by `trim_chars` at either end of a line.
pub open spec fn is_space(c: char) -> bool {
    c == ' ' || c == '\t' || c == '\r' || c == '\n'
}

/// Characters that count towards a line's indentation level.
pub open spec fn is_indent(c: char) -> bool {
    c == ' ' || c == '\t'
}

/// Number of leading indentation characters of a line.
pub open spec fn count_indent(s: Seq<char>) -> int
    decreases s.len(),
{
    if s.len() > 0 && is_indent(s[0]) {
        1 + count_indent(s.drop_first())
    } else {
        0
    }
}

/// The line with leading and trailing whitespace removed.
pub open spec fn trim_spec(s: Seq<char>) -> Seq<char>
    decreases s.len(),
{
    if s.len() > 0 && is_space(s[0]) {
        trim_spec(s.drop_first())
    } else if s.len() > 0 && is_space(s.last()) {
        trim_spec(s.drop_last())
    } else {
        s
    }
}

/// Index of the first occurrence of `c` in `s`, or `s.len()` if absent.
pub open spec fn find_char(s: Seq<char>, c: char) -> int
    decreases s.len(),
{
    if s.len() == 0 {
        0
    } else if s[0] == c {
        0
    } else {
        1 + find_char(s.drop_first(), c)
    }
}

pub proof fn lemma_find_char_le(s: Seq<char>, c: char)
    ensures
        0 <= find_char(s, c) <= s.len(),
    decreases s.len(),
{
    if s.len() > 0 && s[0] != c {
        lemma_find_char_le(s.drop_first(), c);
    }
}

pub proof fn lemma_find_char_at(s: Seq<char>, c: char)
    ensures
        find_char(s, c) < s.len() ==> s[find_char(s, c)] == c,
    decreases s.len(),
{
    lemma_find_char_le(s, c);
    if s.len() > 0 && s[0] != c {
        lemma_find_char_at(s.drop_first(), c);
        lemma_find_char_le(s.drop_first(), c);
    }
}

/// The segments of `s` between newline characters; a final newline yields a
/// trailing empty segment, and an empty input yields one empty segment.
pub open spec fn split_lines(s: Seq<char>) -> Seq<Seq<char>>
    decreases s.len(),
{
    let i = find_char(s, '\n');
    if 0 <= i && i < s.len() {
        seq![s.take(i)] + split_lines(s.skip(i + 1))
    } else {
        seq![s]
    }
}

/// `p` is a prefix of `s`.
pub open spec fn is_prefix_of(p: Seq<char>, s: Seq<char>) -> bool {
    p.len() <= s.len() && s.subrange(0, p.len() as int) == p
}

/// `p` occurs in `s` starting at index `i`.
pub open spec fn has_sub_at(s: Seq<char>, p: Seq<char>, i: int) -> bool {
    0 <= i && i + p.len() <= s.len() && s.subrange(i, i + p.len()) == p
}

/// `p` occurs somewhere in `s`.
pub open spec fn contains_sub(s: Seq<char>, p: Seq<char>) -> bool {
    exists|i: int| has_sub_at(s, p, i)
}

/// Each double quote gains a backslash, so that the text can stand inside a
/// double-quoted literal of the generated code.
pub open spec fn escape_quotes_spec(s: Seq<char>) -> Seq<char>
    decreases s.len(),
{
    if s.len() == 0 {
        Seq::<char>::empty()
    } else {
        (if s[0] == '"' {
            seq!['\\', '"']
        } else {
            seq![s[0]]
        }) + escape_quotes_spec(s.drop_first())
    }
}

/// Each brace is doubled, which neutralizes interpolation holes in the
/// formatted-append statements of the generated code.
pub open spec fn escape_braces_spec(s: Seq<char>) -> Seq<char>
    decreases s.len(),
{
    if s.len() == 0 {
        Seq::<char>::empty()
    } else {
        (if s[0] == '{' {
            seq!['{', '{']
        } else if s[0] == '}' {
            seq!['}', '}']
        } else {
            seq![s[0]]
        }) + escape_braces_spec(s.drop_first())
    }
}

/// The first occurrence of `a` replaced by `b`; `s` unchanged if `a` is absent.
pub open spec fn replace_first_spec(s: Seq<char>, a: char, b: char) -> Seq<char> {
    if find_char(s, a) < s.len() {
        s.update(find_char(s, a), b)
    } else {
        s
    }
}

pub open spec fn digit_char(d: int) -> char {
    ((d + 48) as u8) as char
}

/// Decimal notation of `n`, most significant digit first.
pub open spec fn dec_str(n: nat) -> Seq<char>
    decreases n,
{
    if n < 10 {
        seq![digit_char(n as int)]
    } else {
        dec_str(n / 10) + seq![digit_char((n % 10) as int)]
    }
}

/// Concatenation of a sequence of text fragments, in order.
pub open spec fn concat_seqs(ss: Seq<Seq<char>>) -> Seq<char>
    decreases ss.len(),
{
    if ss.len() == 0 {
        Seq::<char>::empty()
    } else {
        ss[0] + concat_seqs(ss.drop_first())
    }
}

/// The characters of `s`, in order.
pub fn to_chars(s: &str) -> (r: Vec<char>)
    ensures
        r@ == s@,
{
    let n = s.unicode_len();
    let mut out: Vec<char> = Vec::new();
    let mut i: usize = 0;
    while i < n
        invariant
            i <= n,
            n == s@.len(),
            out@ == s@.take(i as int),
        decreases n - i,
    {
        let c = s.get_char(i);
        out.push(c);
        i = i + 1;
        proof {
            assert(out@ =~= s@.take(i as int));
        }
    }
    proof {
        assert(out@ =~= s@);
    }
    out
}

/// Relies on `String`'s `FromIterator` over `char`: collecting an iterator
/// of characters yields the string of exactly those characters in order.
#[verifier::external_body]
pub fn chars_to_string(v: &Vec<char>) -> (r: String)
    ensures
        r@ == v@,
{
    v.iter().collect()
}

/// Relies on `String::push`: appends the given character to the end of the
/// string.
#[verifier::external_body]
pub fn push_char(s: &mut String, c: char)
    ensures
        final(s)@ == old(s)@.push(c),
{
    s.push(c);
}

pub fn eq_chars(a: &Vec<char>, b: &Vec<char>) -> (r: bool)
    ensures
        r == (a@ == b@),
{
    if a.len() != b.len() {
        return false;
    }
    let n = a.len();
    let mut i: usize = 0;
    while i < n
        invariant
            i <= n,
            n == a@.len() && n == b@.len(),
            forall|j: int| 0 <= j < i ==> a@[j] == b@[j],
        decreases n - i,
    {
        if a[i] != b[i] {
            return false;
        }
        i = i + 1;
    }
    proof {
        assert(a@ =~= b@);
    }
    true
}

/// Whether `v` equals the text of `p`.
pub fn eq_lit(v: &Vec<char>, p: &str) -> (r: bool)
    ensures
        r == (v@ == p@),
{
    let pc = to_chars(p);
    eq_chars(v, &pc)
}

/// Whether the text of `p` is a prefix of `v`.
pub fn has_prefix(v: &Vec<char>, p: &str) -> (r: bool)
    ensures
        r == is_prefix_of(p@, v@),
{
    let n = p.unicode_len();
    if n > v.len() {
        return false;
    }
    let mut i: usize = 0;
    while i < n
        invariant
            i <= n,
            n == p@.len(),
            n <= v@.len(),
            forall|j: int| 0 <= j < i ==> v@[j] == p@[j],
        decreases n - i,
    {
        if v[i] != p.get_char(i) {
            proof {
                assert(v@.subrange(0, p@.len() as int)[i as int] != p@[i as int]);
            }
            return false;
        }
        i = i + 1;
    }
    proof {
        assert(v@.subrange(0, p@.len() as int) =~= p@);
    }
    true
}

/// Index of the first occurrence of `c` in `v` at or after `from`, as an
/// offset from `from` matching `find_char` on the remaining text.
pub fn find_char_from(v: &Vec<char>, from: usize, c: char) -> (r: usize)
    requires
        from <= v@.len(),
    ensures
        from <= r <= v@.len(),
        r - from == find_char(v@.skip(from as int), c),
        r < v@.len() ==> v@[r as int] == c,
    decreases v@.len() - from,
{
    let n = v.len();
    let mut i: usize = from;
    while i < n
        invariant
            from <= i <= n,
            n == v@.len(),
            find_char(v@.skip(from as int), c) == (i - from) + find_char(v@.skip(i as int), c),
        decreases n - i,
    {
        if v[i] == c {
            proof {
                assert(find_char(v@.skip(i as int), c) == 0);
            }
            return i;
        }
        proof {
            assert(v@.skip(i as int).drop_first() =~= v@.skip(i as int + 1));
        }
        i = i + 1;
    }
    proof {
        assert(v@.skip(n as int) =~= Seq::<char>::empty());
    }
    n
}

/// A copy of `v[a..b]`.
pub fn sub_vec(v: &Vec<char>, a: usize, b: usize) -> (r: Vec<char>)
    requires
        a <= b <= v@.len(),
    ensures
        r@ == v@.subrange(a as int, b as int),
{
    let mut out: Vec<char> = Vec::new();
    let mut i: usize = a;
    while i < b
        invariant
            a <= i <= b <= v@.len(),
            out@ == v@.subrange(a as int, i as int),
        decreases b - i,
    {
        out.push(v[i]);
        i = i + 1;
        proof {
            assert(out@ =~= v@.subrange(a as int, i as int));
        }
    }
    out
}

/// The line split into segments at newline characters, per `split_lines`.
pub fn split_lines_exec(v: &Vec<char>) -> (r: Vec<String>)
    ensures
        r.deep_view() == split_lines(v@),
{
    let mut out: Vec<String> = Vec::new();
    let mut start: usize = 0;
    proof {
        assert(v@.skip(0) =~= v@);
        assert(out.deep_view() + split_lines(v@) =~= split_lines(v@));
    }
    loop
        invariant
            start <= v@.len(),
            out.deep_view() + split_lines(v@.skip(start as int)) =~= split_lines(v@),
        ensures
            out.deep_view() == split_lines(v@),
        decreases v@.len() - start,
    {
        let j = find_char_from(v, start, '\n');
        let seg = sub_vec(v, start, j);
        let seg_s = chars_to_string(&seg);
        proof {
            assert(seg@ =~= v@.skip(start as int).take((j - start) as int));
        }
        out.push(seg_s);
        if j == v.len() {
            proof {
                assert(split_lines(v@.skip(start as int)) =~= seq![v@.skip(start as int).take(
                    (j - start) as int,
                )]);
                assert(out.deep_view() =~= split_lines(v@));
            }
            return out;
        }
        proof {
            assert(v@.skip(start as int).skip((j - start) as int + 1) =~= v@.skip(j as int + 1));
            assert(out.deep_view() + split_lines(v@.skip(j as int + 1)) =~= split_lines(v@));
        }
        start = j + 1;
    }
}

/// `v` trimmed of leading and trailing whitespace.
pub fn trim_chars(v: &Vec<char>) -> (r: Vec<char>)
    ensures
        r@ == trim_spec(v@),
{
    let n = v.len();
    let mut i: usize = 0;
    proof {
        assert(v@.skip(0) =~= v@);
    }
    while i < n && (v[i] == ' ' || v[i] == '\t' || v[i] == '\r' || v[i] == '\n')
        invariant
            i <= n,
            n == v@.len(),
            trim_spec(v@.skip(i as int)) == trim_spec(v@),
        decreases n - i,
    {
        proof {
            assert(v@.skip(i as int).drop_first() =~= v@.skip(i as int + 1));
        }
        i = i + 1;
    }
    if i == n {
        proof {
            assert(v@.skip(n as int) =~= Seq::<char>::empty());
        }
        let empty: Vec<char> = Vec::new();
        return empty;
    }
    // v[i] is not whitespace, so trimming v[i..] only strips the tail.
    let ghost t = v@.skip(i as int);
    let mut j: usize = n - i;
    proof {
        assert(t.take(j as int) =~= t);
    }
    while j > 0 && (v[i + j - 1] == ' ' || v[i + j - 1] == '\t' || v[i + j - 1] == '\r' || v[i + j
        - 1] == '\n')
        invariant
            0 <= j <= n - i,
            i < n,
            n == v@.len(),
            t == v@.skip(i as int),
            !is_space(t[0]),
            trim_spec(t.take(j as int)) == trim_spec(t),
            trim_spec(t) == trim_spec(v@),
        decreases j,
    {
        proof {
            assert(t.take(j as int).drop_last() =~= t.take(j as int - 1));
            assert(t.take(j as int).last() == v@[i + j - 1]);
        }
        j = j - 1;
    }
    proof {
        if j == 0 {
            assert(t.take(0) =~= Seq::<char>::empty());
        } else {
            assert(t.take(j as int)[0] == t[0]);
            assert(t.take(j as int).last() == v@[i + j - 1]);
            assert(trim_spec(t.take(j as int)) == t.take(j as int));
        }
        assert(t.take(j as int) =~= v@.subrange(i as int, (i + j) as int));
    }
    sub_vec(v, i, i + j)
}

/// The number of leading indentation characters of `v`.
pub fn count_indent_exec(v: &Vec<char>) -> (r: usize)
    ensures
        r == count_indent(v@),
{
    let n = v.len();
    let mut i: usize = 0;
    proof {
        assert(v@.skip(0) =~= v@);
    }
    while i < n && (v[i] == ' ' || v[i] == '\t')
        invariant
            i <= n,
            n == v@.len(),
            count_indent(v@) == i + count_indent(v@.skip(i as int)),
        decreases n - i,
    {
        proof {
            assert(v@.skip(i as int).drop_first() =~= v@.skip(i as int + 1));
        }
        i = i + 1;
    }
    proof {
        if i < n {
            assert(count_indent(v@.skip(i as int)) == 0);
        } else {
            assert(v@.skip(i as int) =~= Seq::<char>::empty());
        }
    }
    i
}

proof fn lemma_escape_quotes_snoc(s: Seq<char>, c: char)
    ensures
        escape_quotes_spec(s.push(c)) == escape_quotes_spec(s) + (if c == '"' {
            seq!['\\', '"']
        } else {
            seq![c]
        }),
    decreases s.len(),
{
    let unit = if c == '"' {
        seq!['\\', '"']
    } else {
        seq![c]
    };
    if s.len() == 0 {
        assert(s.push(c)[0] == c);
        assert(s.push(c).drop_first() =~= Seq::<char>::empty());
        assert(escape_quotes_spec(s.push(c)) == unit + escape_quotes_spec(Seq::<char>::empty()));
        assert(escape_quotes_spec(s) == Seq::<char>::empty());
        assert(unit + Seq::<char>::empty() =~= Seq::<char>::empty() + unit);
        assert(escape_quotes_spec(s.push(c)) =~= escape_quotes_spec(s) + unit);
    } else {
        let s1 = s.drop_first();
        lemma_escape_quotes_snoc(s1, c);
        assert(s.push(c).drop_first() =~= s1.push(c));
        assert(s.push(c)[0] == s[0]);
        let u0 = if s[0] == '"' {
            seq!['\\', '"']
        } else {
            seq![s[0]]
        };
        assert(escape_quotes_spec(s.push(c)) == u0 + escape_quotes_spec(s1.push(c)));
        assert(escape_quotes_spec(s) == u0 + escape_quotes_spec(s1));
        assert(u0 + (escape_quotes_spec(s1) + unit) =~= (u0 + escape_quotes_spec(s1)) + unit);
        assert(escape_quotes_spec(s.push(c)) =~= escape_quotes_spec(s) + unit);
    }
}

/// `v` with each double quote preceded by a backslash.
pub fn escape_quotes(v: &Vec<char>) -> (r: Vec<char>)
    ensures
        r@ == escape_quotes_spec(v@),
{
    let n = v.len();
    let mut out: Vec<char> = Vec::new();
    let mut i: usize = 0;
    while i < n
        invariant
            i <= n,
            n == v@.len(),
            out@ == escape_quotes_spec(v@.take(i as int)),
        decreases n - i,
    {
        let c = v[i];
        if c == '"' {
            out.push('\\');
            out.push('"');
        } else {
            out.push(c);
        }
        proof {
            lemma_escape_quotes_snoc(v@.take(i as int), v@[i as int]);
            assert(v@.take(i as int).push(v@[i as int]) =~= v@.take(i as int + 1));
            assert(out@ =~= escape_quotes_spec(v@.take(i as int + 1)));
        }
        i = i + 1;
    }
    proof {
        assert(v@.take(n as int) =~= v@);
    }
    out
}

proof fn lemma_escape_braces_snoc(s: Seq<char>, c: char)
    ensures
        escape_braces_spec(s.push(c)) == escape_braces_spec(s) + (if c == '{' {
            seq!['{', '{']
        } else if c == '}' {
            seq!['}', '}']
        } else {
            seq![c]
        }),
    decreases s.len(),
{
    let unit = if c == '{' {
        seq!['{', '{']
    } else if c == '}' {
        seq!['}', '}']
    } else {
        seq![c]
    };
    if s.len() == 0 {
        assert(s.push(c)[0] == c);
        assert(s.push(c).drop_first() =~= Seq::<char>::empty());
        assert(escape_braces_spec(s.push(c)) == unit + escape_braces_spec(Seq::<char>::empty()));
        assert(escape_braces_spec(s) == Seq::<char>::empty());
        assert(unit + Seq::<char>::empty() =~= Seq::<char>::empty() + unit);
        assert(escape_braces_spec(s.push(c)) =~= escape_braces_spec(s) + unit);
    } else {
        let s1 = s.drop_first();
        lemma_escape_braces_snoc(s1, c);
        assert(s.push(c).drop_first() =~= s1.push(c));
        assert(s.push(c)[0] == s[0]);
        let u0 = if s[0] == '{' {
            seq!['{', '{']
        } else if s[0] == '}' {
            seq!['}', '}']
        } else {
            seq![s[0]]
        };
        assert(escape_braces_spec(s.push(c)) == u0 + escape_braces_spec(s1.push(c)));
        assert(escape_braces_spec(s) == u0 + escape_braces_spec(s1));
        assert(u0 + (escape_braces_spec(s1) + unit) =~= (u0 + escape_braces_spec(s1)) + unit);
        assert(escape_braces_spec(s.push(c)) =~= escape_braces_spec(s) + unit);
    }
}

/// `v` with every brace doubled.
pub fn escape_braces(v: &Vec<char>) -> (r: Vec<char>)
    ensures
        r@ == escape_braces_spec(v@),
{
    let n = v.len();
    let mut out: Vec<char> = Vec::new();
    let mut i: usize = 0;
    while i < n
        invariant
            i <= n,
            n == v@.len(),
            out@ == escape_braces_spec(v@.take(i as int)),
        decreases n - i,
    {
        let c = v[i];
        if c == '{' {
            out.push('{');
            out.push('{');
        } else if c == '}' {
            out.push('}');
            out.push('}');
        } else {
            out.push(c);
        }
        proof {
            lemma_escape_braces_snoc(v@.take(i as int), v@[i as int]);
            assert(v@.take(i as int).push(v@[i as int]) =~= v@.take(i as int + 1));
            assert(out@ =~= escape_braces_spec(v@.take(i as int + 1)));
        }
        i = i + 1;
    }
    proof {
        assert(v@.take(n as int) =~= v@);
    }
    out
}

/// `v` with the first occurrence of `a` replaced by `b`.
pub fn replace_first(v: &Vec<char>, a: char, b: char) -> (r: Vec<char>)
    ensures
        r@ == replace_first_spec(v@, a, b),
{
    let j = find_char_from(v, 0, a);
    proof {
        assert(v@.skip(0) =~= v@);
    }
    let n = v.len();
    let mut out: Vec<char> = Vec::new();
    let mut i: usize = 0;
    while i < n
        invariant
            i <= n,
            n == v@.len(),
            j - 0 == find_char(v@, a),
            j < n ==> out@ == v@.update(j as int, b).take(i as int),
            j >= n ==> out@ == v@.take(i as int),
        decreases n - i,
    {
        if i == j {
            out.push(b);
        } else {
            out.push(v[i]);
        }
        i = i + 1;
        proof {
            if j < n {
                assert(out@ =~= v@.update(j as int, b).take(i as int));
            } else {
                assert(out@ =~= v@.take(i as int));
            }
        }
    }
    proof {
        if j < n {
            assert(out@ =~= v@.update(j as int, b));
        } else {
            assert(out@ =~= v@);
        }
    }
    out
}

/// Whether the text of `p` occurs in `v`.
pub fn contains_lit(v: &Vec<char>, p: &str) -> (r: bool)
    ensures
        r == contains_sub(v@, p@),
{
    let m = p.unicode_len();
    let n = v.len();
    if m == 0 {
        proof {
            assert(v@.subrange(0, 0) =~= p@);
            assert(has_sub_at(v@, p@, 0));
        }
        return true;
    }
    if m > n {
        proof {
            assert(forall|i: int| !(#[trigger] has_sub_at(v@, p@, i)));
        }
        return false;
    }
    let mut i: usize = 0;
    while i <= n - m
        invariant
            0 <= i <= n - m + 1,
            m == p@.len(),
            n == v@.len(),
            1 <= m <= n,
            forall|k: int| 0 <= k < i ==> !has_sub_at(v@, p@, k),
        decreases n - m + 1 - i,
    {
        let mut ok: bool = true;
        let mut t: usize = 0;
        while t < m
            invariant
                0 <= t <= m,
                i + m <= n,
                m == p@.len(),
                n == v@.len(),
                ok ==> forall|u: int| 0 <= u < t ==> v@[i + u] == p@[u],
                !ok ==> !has_sub_at(v@, p@, i as int),
            decreases m - t,
        {
            if ok && v[i + t] != p.get_char(t) {
                proof {
                    assert(v@.subrange(i as int, i + p@.len())[t as int] != p@[t as int]);
                }
                ok = false;
            }
            t = t + 1;
        }
        if ok {
            proof {
                assert(v@.subrange(i as int, i + p@.len()) =~= p@);
                assert(has_sub_at(v@, p@, i as int));
            }
            return true;
        }
        i = i + 1;
    }
    proof {
        assert(forall|k: int| !(#[trigger] has_sub_at(v@, p@, k)));
    }
    false
}

/// Decimal notation of `n`.
pub fn u64_dec_chars(n: u64) -> (r: Vec<char>)
    ensures
        r@ == dec_str(n as nat),
    decreases n,
{
    let d: u8 = (n % 10) as u8 + 48;
    let c: char = d as char;
    if n < 10 {
        let mut v: Vec<char> = Vec::new();
        v.push(c);
        proof {
            assert(v@ =~= dec_str(n as nat));
        }
        v
    } else {
        let mut v = u64_dec_chars(n / 10);
        v.push(c);
        proof {
            assert(v@ =~= dec_str(n as nat));
        }
        v
    }
}

/// The concatenation of the fragments of `v`, in order.
pub fn concat_strings(v: &Vec<String>) -> (r: String)
    ensures
        r@ == concat_seqs(v.deep_view()),
{
    let mut out = String::new();
    let n = v.len();
    let mut i: usize = 0;
    proof {
        assert(v.deep_view().skip(0) =~= v.deep_view());
        assert(Seq::<char>::empty() + concat_seqs(v.deep_view()) =~= concat_seqs(v.deep_view()));
    }
    while i < n
        invariant
            i <= n,
            n == v@.len(),
            v.deep_view().len() == n,
            out@ + concat_seqs(v.deep_view().skip(i as int)) == concat_seqs(v.deep_view()),
        decreases n - i,
    {
        vstd::string::StringExecFns::append(&mut out, v[i].as_str());
        proof {
            assert(v.deep_view().skip(i as int).drop_first() =~= v.deep_view().skip(i as int + 1));
            assert(v.deep_view().skip(i as int)[0] == v@[i as int]@);
            assert(out@ + concat_seqs(v.deep_view().skip(i as int + 1)) =~= concat_seqs(
                v.deep_view(),
            ));
        }
        i = i + 1;
    }
    proof {
        assert(v.deep_view().skip(n as int) =~= Seq::<Seq<char>>::empty());
        assert(out@ =~= concat_seqs(v.deep_view()));
    }
    out
}

} // verus!
