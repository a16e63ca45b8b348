//! Character-level text operations.
//!
//! Text is modelled as `Seq<char>`. Every executable function here works on
//! `Vec<char>` and is specified by a spec function of the same name on
//! sequences.

use vstd::prelude::*;
use vstd::string::StringExecFns;

verus! {

/// Whether `c` has the Unicode property `White_Space`.
pub open spec fn is_whitespace(c: char) -> bool {
    let n = c as int;
    ||| 0x09 <= n <= 0x0D
    ||| n == 0x20
    ||| n == 0x85
    ||| n == 0xA0
    ||| n == 0x1680
    ||| 0x2000 <= n <= 0x200A
    ||| n == 0x2028
    ||| n == 0x2029
    ||| n == 0x202F
    ||| n == 0x205F
    ||| n == 0x3000
}

/// Number of whitespace characters at the start of `s`.
pub open spec fn leading_whitespace(s: Seq<char>) -> nat
    decreases s.len(),
{
    if s.len() > 0 && is_whitespace(s[0]) {
        1 + leading_whitespace(s.drop_first())
    } else {
        0
    }
}

/// Number of whitespace characters at the end of `s`.
pub open spec fn trailing_whitespace(s: Seq<char>) -> nat
    decreases s.len(),
{
    if s.len() > 0 && is_whitespace(s.last()) {
        1 + trailing_whitespace(s.drop_last())
    } else {
        0
    }
}

/// `s` without its leading whitespace.
pub open spec fn trim_start(s: Seq<char>) -> Seq<char> {
    s.skip(leading_whitespace(s) as int)
}

/// `s` without its trailing whitespace.
pub open spec fn trim_end(s: Seq<char>) -> Seq<char> {
    s.take(s.len() - trailing_whitespace(s))
}

/// `s` without leading and trailing whitespace.
pub open spec fn trim(s: Seq<char>) -> Seq<char> {
    trim_end(trim_start(s))
}

/// Whether `s` holds nothing but whitespace.
pub open spec fn is_blank(s: Seq<char>) -> bool {
    forall|i: int| 0 <= i < s.len() ==> is_whitespace(#[trigger] s[i])
}

/// Index of the first line feed in `s`, or `s.len()` if there is none.
pub open spec fn line_feed_index(s: Seq<char>) -> nat
    decreases s.len(),
{
    if s.len() == 0 || s[0] == '\n' {
        0
    } else {
        1 + line_feed_index(s.drop_first())
    }
}

/// `s` without one trailing carriage return.
pub open spec fn strip_carriage_return(s: Seq<char>) -> Seq<char> {
    if s.len() > 0 && s.last() == '\r' {
        s.drop_last()
    } else {
        s
    }
}

/// The lines of `s`. A line ends at a line feed or at a carriage return
/// directly followed by a line feed; the terminator is not part of the line.
/// The last line needs no terminator, and a terminator at the very end opens
/// no further line.
pub open spec fn lines(s: Seq<char>) -> Seq<Seq<char>>
    decreases s.len(),
{
    if s.len() == 0 {
        Seq::empty()
    } else {
        let k = line_feed_index(s) as int;
        if k >= s.len() {
            seq![s]
        } else {
            seq![strip_carriage_return(s.take(k))] + lines(s.skip(k + 1))
        }
    }
}

/// The parts in order, with `sep` between each two neighbours.
pub open spec fn join(parts: Seq<Seq<char>>, sep: Seq<char>) -> Seq<char>
    decreases parts.len(),
{
    if parts.len() == 0 {
        Seq::empty()
    } else if parts.len() == 1 {
        parts[0]
    } else {
        join(parts.drop_last(), sep) + sep + parts.last()
    }
}

/// Whether `s` begins with `prefix`.
pub open spec fn starts_with(s: Seq<char>, prefix: Seq<char>) -> bool {
    prefix.len() <= s.len() && s.take(prefix.len() as int) == prefix
}

/// Strict lexicographic order by code point.
pub open spec fn lex_lt(a: Seq<char>, b: Seq<char>) -> bool
    decreases a.len(),
{
    if b.len() == 0 {
        false
    } else if a.len() == 0 {
        true
    } else if a[0] != b[0] {
        (a[0] as int) < (b[0] as int)
    } else {
        lex_lt(a.drop_first(), b.drop_first())
    }
}

/// The views of the elements of `v`.
pub open spec fn views(v: Seq<Vec<char>>) -> Seq<Seq<char>> {
    v.map_values(|l: Vec<char>| l@)
}

/// `k` whitespace characters at the start, and none after them, make
/// `leading_whitespace` equal to `k`.
pub proof fn lemma_leading_whitespace(s: Seq<char>, k: int)
    requires
        0 <= k <= s.len(),
        forall|i: int| 0 <= i < k ==> is_whitespace(#[trigger] s[i]),
        k < s.len() ==> !is_whitespace(s[k]),
    ensures
        leading_whitespace(s) == k,
    decreases k,
{
    if k > 0 {
        let t = s.drop_first();
        assert forall|i: int| 0 <= i < k - 1 implies is_whitespace(#[trigger] t[i]) by {
            assert(t[i] == s[i + 1]);
        }
        if k - 1 < t.len() {
            assert(t[k - 1] == s[k]);
        }
        lemma_leading_whitespace(t, k - 1);
    }
}

/// `k` whitespace characters at the end, and none before them, make
/// `trailing_whitespace` equal to `k`.
pub proof fn lemma_trailing_whitespace(s: Seq<char>, k: int)
    requires
        0 <= k <= s.len(),
        forall|i: int| s.len() - k <= i < s.len() ==> is_whitespace(#[trigger] s[i]),
        k < s.len() ==> !is_whitespace(s[s.len() - k - 1]),
    ensures
        trailing_whitespace(s) == k,
    decreases k,
{
    if k > 0 {
        let t = s.drop_last();
        assert forall|i: int| t.len() - (k - 1) <= i < t.len() implies is_whitespace(
            #[trigger] t[i],
        ) by {
            assert(t[i] == s[i]);
        }
        lemma_trailing_whitespace(t, k - 1);
    }
}

/// The first line feed stands at `k` if there is one at `k` and none before
/// it, and `k` is the length if there is none at all.
pub proof fn lemma_line_feed_index(s: Seq<char>, k: int)
    requires
        0 <= k <= s.len(),
        forall|i: int| 0 <= i < k ==> #[trigger] s[i] != '\n',
        k < s.len() ==> s[k] == '\n',
    ensures
        line_feed_index(s) == k,
    decreases k,
{
    if k > 0 {
        let t = s.drop_first();
        assert forall|i: int| 0 <= i < k - 1 implies #[trigger] t[i] != '\n' by {
            assert(t[i] == s[i + 1]);
        }
        if k - 1 < t.len() {
            assert(t[k - 1] == s[k]);
        }
        lemma_line_feed_index(t, k - 1);
    }
}

/// A blank text trims to the empty text, and only a blank text does.
pub proof fn lemma_trim_blank(s: Seq<char>)
    ensures
        is_blank(s) <==> trim(s).len() == 0,
        is_blank(s) <==> leading_whitespace(s) == s.len(),
        leading_whitespace(s) <= s.len(),
        trailing_whitespace(s) <= s.len(),
    decreases s.len(),
{
    lemma_leading_bound(s);
    lemma_trailing_bound(s);
    let k = leading_whitespace(s) as int;
    lemma_leading_prefix(s);
    let t = trim_start(s);
    lemma_trailing_bound(t);
    if k == s.len() {
        assert(is_blank(s));
        assert(t.len() == 0);
    } else {
        assert(!is_whitespace(s[k]));
        assert(!is_blank(s));
        assert(t[0] == s[k]);
        // the first character of `t` is no whitespace, so it survives
        lemma_trailing_stops(t, 0);
    }
}

/// `leading_whitespace(s)` is at most `s.len()`.
pub proof fn lemma_leading_bound(s: Seq<char>)
    ensures
        leading_whitespace(s) <= s.len(),
    decreases s.len(),
{
    if s.len() > 0 && is_whitespace(s[0]) {
        lemma_leading_bound(s.drop_first());
    }
}

/// `trailing_whitespace(s)` is at most `s.len()`.
pub proof fn lemma_trailing_bound(s: Seq<char>)
    ensures
        trailing_whitespace(s) <= s.len(),
    decreases s.len(),
{
    if s.len() > 0 && is_whitespace(s.last()) {
        lemma_trailing_bound(s.drop_last());
    }
}

/// The characters counted by `leading_whitespace` are whitespace, and the one
/// after them is not.
pub proof fn lemma_leading_prefix(s: Seq<char>)
    ensures
        leading_whitespace(s) <= s.len(),
        forall|i: int| 0 <= i < leading_whitespace(s) ==> is_whitespace(#[trigger] s[i]),
        leading_whitespace(s) < s.len() ==> !is_whitespace(s[leading_whitespace(s) as int]),
    decreases s.len(),
{
    if s.len() > 0 && is_whitespace(s[0]) {
        let t = s.drop_first();
        lemma_leading_prefix(t);
        assert forall|i: int| 0 <= i < leading_whitespace(s) implies is_whitespace(
            #[trigger] s[i],
        ) by {
            if i > 0 {
                assert(s[i] == t[i - 1]);
            }
        }
        if leading_whitespace(s) < s.len() {
            assert(s[leading_whitespace(s) as int] == t[leading_whitespace(t) as int]);
        }
    }
}

/// The characters counted by `trailing_whitespace` are whitespace, and the
/// one before them is not.
pub proof fn lemma_trailing_suffix(s: Seq<char>)
    ensures
        trailing_whitespace(s) <= s.len(),
        forall|i: int|
            s.len() - trailing_whitespace(s) <= i < s.len() ==> is_whitespace(#[trigger] s[i]),
        trailing_whitespace(s) < s.len() ==> !is_whitespace(
            s[s.len() - trailing_whitespace(s) - 1],
        ),
    decreases s.len(),
{
    if s.len() > 0 && is_whitespace(s.last()) {
        let t = s.drop_last();
        lemma_trailing_suffix(t);
        assert forall|i: int|
            s.len() - trailing_whitespace(s) <= i < s.len() implies is_whitespace(
            #[trigger] s[i],
        ) by {
            if i < s.len() - 1 {
                assert(s[i] == t[i]);
            }
        }
        if trailing_whitespace(s) < s.len() {
            assert(s[s.len() - trailing_whitespace(s) - 1] == t[t.len() - trailing_whitespace(t)
                - 1]);
        }
    }
}

/// A character that is no whitespace is never trimmed from the end.
pub proof fn lemma_trailing_stops(s: Seq<char>, i: int)
    requires
        0 <= i < s.len(),
        !is_whitespace(s[i]),
    ensures
        trailing_whitespace(s) < s.len() - i,
{
    lemma_trailing_suffix(s);
    if trailing_whitespace(s) >= s.len() - i {
        assert(is_whitespace(s[i]));
    }
}

/// `views` distributes over `push`.
pub proof fn lemma_views_push(v: Seq<Vec<char>>, l: Vec<char>)
    ensures
        views(v.push(l)) == views(v).push(l@),
{
    assert(views(v.push(l)) =~= views(v).push(l@));
}

/// The characters of `s`, in order.
pub fn chars_of(s: &str) -> (v: Vec<char>)
    ensures
        v@ == s@,
{
    let mut v: Vec<char> = Vec::new();
    for c in it: s.chars()
        invariant
            v@ == it.seq().take(it.index()),
            it.seq() == s@,
    {
        v.push(c);
    }
    v
}

/// A string made of the characters of `v`, by `String::from_iter`: the
/// result holds the characters of `v` in order and nothing else.
#[verifier::external_body]
pub(crate) fn string_of(v: &Vec<char>) -> (s: String)
    ensures
        s@ == v@,
{
    String::from_iter(v.iter())
}

/// Whether `c` has the Unicode property `White_Space`.
pub fn is_whitespace_char(c: char) -> (r: bool)
    ensures
        r == is_whitespace(c),
{
    let n: u32 = c as u32;
    (0x09 <= n && n <= 0x0D) || n == 0x20 || n == 0x85 || n == 0xA0 || n == 0x1680 || (0x2000 <= n
        && n <= 0x200A) || n == 0x2028 || n == 0x2029 || n == 0x202F || n == 0x205F || n == 0x3000
}

/// Copy of `v[from..to]`.
pub fn slice_of(v: &Vec<char>, from: usize, to: usize) -> (r: Vec<char>)
    requires
        from <= to <= v.len(),
    ensures
        r@ == v@.subrange(from as int, to as int),
{
    let mut r: Vec<char> = Vec::new();
    let mut i: usize = from;
    while i < to
        invariant
            from <= i <= to <= v.len(),
            r@ == v@.subrange(from as int, i as int),
        decreases to - i,
    {
        r.push(v[i]);
        i = i + 1;
        assert(r@ =~= v@.subrange(from as int, i as int));
    }
    r
}

/// Number of whitespace characters at the start of `v`.
pub fn count_leading_whitespace(v: &Vec<char>) -> (k: usize)
    ensures
        k == leading_whitespace(v@),
        k <= v.len(),
{
    let mut i: usize = 0;
    while i < v.len() && is_whitespace_char(v[i])
        invariant
            i <= v.len(),
            forall|j: int| 0 <= j < i ==> is_whitespace(#[trigger] v@[j]),
        decreases v.len() - i,
    {
        i = i + 1;
    }
    proof {
        lemma_leading_whitespace(v@, i as int);
    }
    i
}

/// Number of whitespace characters at the end of `v`.
pub fn count_trailing_whitespace(v: &Vec<char>) -> (k: usize)
    ensures
        k == trailing_whitespace(v@),
        k <= v.len(),
{
    let n = v.len();
    let mut i: usize = 0;
    while i < n && is_whitespace_char(v[n - i - 1])
        invariant
            n == v.len(),
            i <= n,
            forall|j: int| n - i <= j < n ==> is_whitespace(#[trigger] v@[j]),
        decreases n - i,
    {
        i = i + 1;
    }
    proof {
        lemma_trailing_whitespace(v@, i as int);
    }
    i
}

/// `v` without its trailing whitespace.
pub fn trim_end_chars(v: &Vec<char>) -> (r: Vec<char>)
    ensures
        r@ == trim_end(v@),
{
    let k = count_trailing_whitespace(v);
    let r = slice_of(v, 0, v.len() - k);
    assert(v@.subrange(0, v.len() - k) =~= v@.take(v.len() - k));
    r
}

/// `v` without leading and trailing whitespace.
pub fn trim_chars(v: &Vec<char>) -> (r: Vec<char>)
    ensures
        r@ == trim(v@),
{
    let a = count_leading_whitespace(v);
    let t = slice_of(v, a, v.len());
    assert(t@ =~= trim_start(v@));
    trim_end_chars(&t)
}

/// Whether `v` holds nothing but whitespace.
pub fn is_blank_chars(v: &Vec<char>) -> (r: bool)
    ensures
        r == is_blank(v@),
{
    let k = count_leading_whitespace(v);
    proof {
        lemma_trim_blank(v@);
    }
    k == v.len()
}

/// Whether two texts hold the same characters.
pub fn same_chars(a: &Vec<char>, b: &Vec<char>) -> (r: bool)
    ensures
        r == (a@ == b@),
{
    if a.len() != b.len() {
        return false;
    }
    let mut i: usize = 0;
    while i < a.len()
        invariant
            a.len() == b.len(),
            i <= a.len(),
            forall|j: int| 0 <= j < i ==> a@[j] == b@[j],
        decreases a.len() - i,
    {
        if a[i] != b[i] {
            return false;
        }
        i = i + 1;
    }
    assert(a@ =~= b@);
    true
}

/// Whether two strings hold the same characters.
pub fn same_text(a: &str, b: &str) -> (r: bool)
    ensures
        r == (a@ == b@),
{
    let x = chars_of(a);
    let y = chars_of(b);
    same_chars(&x, &y)
}

/// Whether `v` begins with `prefix`.
pub fn starts_with_chars(v: &Vec<char>, prefix: &Vec<char>) -> (r: bool)
    ensures
        r == starts_with(v@, prefix@),
{
    if prefix.len() > v.len() {
        return false;
    }
    let mut i: usize = 0;
    while i < prefix.len()
        invariant
            prefix.len() <= v.len(),
            i <= prefix.len(),
            forall|j: int| 0 <= j < i ==> v@[j] == prefix@[j],
        decreases prefix.len() - i,
    {
        if v[i] != prefix[i] {
            assert(v@.take(prefix.len() as int)[i as int] != prefix@[i as int]);
            return false;
        }
        i = i + 1;
    }
    assert(v@.take(prefix.len() as int) =~= prefix@);
    true
}

/// Appends the characters of `tail` to `v`.
pub fn extend_chars(v: &mut Vec<char>, tail: &Vec<char>)
    ensures
        final(v)@ == old(v)@ + tail@,
{
    let mut i: usize = 0;
    while i < tail.len()
        invariant
            i <= tail.len(),
            v@ == old(v)@ + tail@.take(i as int),
        decreases tail.len() - i,
    {
        v.push(tail[i]);
        i = i + 1;
        assert(v@ =~= old(v)@ + tail@.take(i as int));
    }
    assert(tail@.take(tail.len() as int) =~= tail@);
}

/// The lines of `v`.
pub fn split_lines(v: &Vec<char>) -> (out: Vec<Vec<char>>)
    ensures
        views(out@) == lines(v@),
{
    let mut out: Vec<Vec<char>> = Vec::new();
    let mut start: usize = 0;
    let mut i: usize = 0;
    assert(views(out@) =~= Seq::<Seq<char>>::empty());
    assert(v@.skip(0) =~= v@);
    while i < v.len()
        invariant
            start <= i <= v.len(),
            forall|j: int| start <= j < i ==> #[trigger] v@[j] != '\n',
            lines(v@) == views(out@) + lines(v@.skip(start as int)),
        decreases v.len() - i,
    {
        if v[i] == '\n' {
            let ghost rest = v@.skip(start as int);
            let mut end: usize = i;
            if end > start && v[end - 1] == '\r' {
                end = end - 1;
            }
            let line = slice_of(v, start, end);
            proof {
                assert forall|j: int| 0 <= j < i - start implies #[trigger] rest[j] != '\n' by {
                    assert(rest[j] == v@[start + j]);
                }
                assert(rest[i - start] == v@[i as int]);
                lemma_line_feed_index(rest, i - start);
                assert(rest.take(i - start) =~= v@.subrange(start as int, i as int));
                assert(line@ =~= strip_carriage_return(rest.take(i - start)));
                assert(rest.skip(i - start + 1) =~= v@.skip(i + 1));
                lemma_views_push(out@, line);
                assert(views(out@) + (seq![line@] + lines(v@.skip(i + 1))) =~= views(out@).push(
                    line@,
                ) + lines(v@.skip(i + 1)));
            }
            out.push(line);
            start = i + 1;
        }
        i = i + 1;
    }
    let ghost rest = v@.skip(start as int);
    if start < v.len() {
        let line = slice_of(v, start, v.len());
        proof {
            assert forall|j: int| 0 <= j < rest.len() implies #[trigger] rest[j] != '\n' by {
                assert(rest[j] == v@[start + j]);
            }
            lemma_line_feed_index(rest, rest.len() as int);
            assert(line@ =~= rest);
            lemma_views_push(out@, line);
            assert(views(out@) + seq![rest] =~= views(out@).push(line@));
        }
        out.push(line);
    } else {
        assert(views(out@) + Seq::<Seq<char>>::empty() =~= views(out@));
    }
    out
}

/// Joins `parts[from..to]` with `sep`.
pub fn join_range(parts: &Vec<Vec<char>>, from: usize, to: usize, sep: &Vec<char>) -> (r: Vec<
    char,
>)
    requires
        from <= to <= parts.len(),
    ensures
        r@ == join(views(parts@).subrange(from as int, to as int), sep@),
{
    let mut r: Vec<char> = Vec::new();
    let mut i: usize = from;
    assert(views(parts@).subrange(from as int, from as int) =~= Seq::<Seq<char>>::empty());
    while i < to
        invariant
            from <= i <= to <= parts.len(),
            r@ == join(views(parts@).subrange(from as int, i as int), sep@),
        decreases to - i,
    {
        let ghost before = views(parts@).subrange(from as int, i as int);
        let ghost after = views(parts@).subrange(from as int, i + 1);
        proof {
            assert(after.drop_last() =~= before);
            assert(after.last() == parts@[i as int]@);
        }
        if i > from {
            extend_chars(&mut r, sep);
        } else {
            assert(after.len() == 1);
            assert(r@ + parts@[i as int]@ =~= parts@[i as int]@);
        }
        extend_chars(&mut r, &parts[i]);
        i = i + 1;
    }
    r
}

/// The views of the elements of `v`.
pub open spec fn string_views(v: Seq<String>) -> Seq<Seq<char>> {
    v.map_values(|n: String| n@)
}

/// Joins the strings of `parts` with `sep`.
pub fn join_strings(parts: &Vec<String>, sep: &str) -> (r: String)
    ensures
        r@ == join(string_views(parts@), sep@),
{
    let mut r = String::new();
    let mut i: usize = 0;
    let ghost all = string_views(parts@);
    assert(all.take(0) =~= Seq::<Seq<char>>::empty());
    while i < parts.len()
        invariant
            i <= parts.len(),
            all == string_views(parts@),
            r@ == join(all.take(i as int), sep@),
        decreases parts.len() - i,
    {
        proof {
            assert(all.take(i + 1).drop_last() =~= all.take(i as int));
            assert(all.take(i + 1).last() == parts@[i as int]@);
        }
        if i > 0 {
            r.append(sep);
        } else {
            assert(r@ + parts@[i as int]@ =~= parts@[i as int]@);
        }
        r.append(parts[i].as_str());
        i = i + 1;
    }
    assert(all.take(all.len() as int) =~= all);
    r
}

/// No text is below itself.
pub proof fn lemma_lex_irreflexive(a: Seq<char>)
    ensures
        !lex_lt(a, a),
    decreases a.len(),
{
    if a.len() > 0 {
        lemma_lex_irreflexive(a.drop_first());
    }
}

/// Of two different texts, one is below the other.
pub proof fn lemma_lex_total(a: Seq<char>, b: Seq<char>)
    ensures
        lex_lt(a, b) || lex_lt(b, a) || a == b,
        !(lex_lt(a, b) && lex_lt(b, a)),
    decreases a.len(),
{
    if a.len() == 0 || b.len() == 0 {
        if a.len() == 0 && b.len() == 0 {
            assert(a =~= b);
        }
    } else if a[0] == b[0] {
        lemma_lex_total(a.drop_first(), b.drop_first());
        if a.drop_first() == b.drop_first() {
            assert(a =~= seq![a[0]] + a.drop_first());
            assert(b =~= seq![b[0]] + b.drop_first());
        }
    }
}

/// The order is transitive.
pub proof fn lemma_lex_transitive(a: Seq<char>, b: Seq<char>, c: Seq<char>)
    requires
        lex_lt(a, b),
        lex_lt(b, c),
    ensures
        lex_lt(a, c),
    decreases a.len(),
{
    if a.len() > 0 && b.len() > 0 && c.len() > 0 && a[0] == b[0] && b[0] == c[0] {
        lemma_lex_transitive(a.drop_first(), b.drop_first(), c.drop_first());
    }
}

/// Whether `a` is below `b` in lexicographic order by code point.
pub fn lex_lt_chars(a: &Vec<char>, b: &Vec<char>) -> (r: bool)
    ensures
        r == lex_lt(a@, b@),
{
    let mut i: usize = 0;
    assert(a@.skip(0) =~= a@);
    assert(b@.skip(0) =~= b@);
    while i < a.len() && i < b.len()
        invariant
            i <= a.len(),
            i <= b.len(),
            lex_lt(a@, b@) == lex_lt(a@.skip(i as int), b@.skip(i as int)),
        decreases a.len() - i,
    {
        let ghost x = a@.skip(i as int);
        let ghost y = b@.skip(i as int);
        assert(x[0] == a@[i as int]);
        assert(y[0] == b@[i as int]);
        let ca: char = a[i];
        let cb: char = b[i];
        if ca != cb {
            assert(lex_lt(x, y) == ((ca as int) < (cb as int)));
            return ca < cb;
        }
        assert(x.drop_first() =~= a@.skip(i + 1));
        assert(y.drop_first() =~= b@.skip(i + 1));
        i = i + 1;
    }
    i < b.len()
}

/// Whether `a` is below `b` in lexicographic order by code point.
pub fn text_lt(a: &str, b: &str) -> (r: bool)
    ensures
        r == lex_lt(a@, b@),
{
    let x = chars_of(a);
    let y = chars_of(b);
    lex_lt_chars(&x, &y)
}

} // verus!
