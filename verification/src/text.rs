//! Character-level text operations with their specifications.
//!
//! Strings are modelled by their view, the sequence of their `char`s.
//! The specifications follow the behaviour of the corresponding `str`
//! methods of Rust's standard library.
use vstd::prelude::*;
use vstd::string::StringExecFns;
use vstd::utf8::*;

verus! {

/// The Unicode `White_Space` property, which `char::is_whitespace`,
/// `str::trim` and `str::split_whitespace` use.
pub open spec fn is_ws(c: char) -> bool {
    ||| ('\u{9}' <= c && c <= '\u{d}')
    ||| c == ' '
    ||| c == '\u{85}'
    ||| c == '\u{a0}'
    ||| c == '\u{1680}'
    ||| ('\u{2000}' <= c && c <= '\u{200a}')
    ||| c == '\u{2028}'
    ||| c == '\u{2029}'
    ||| c == '\u{202f}'
    ||| c == '\u{205f}'
    ||| c == '\u{3000}'
}

/// `s` without its leading whitespace.
pub open spec fn trim_start(s: Seq<char>) -> Seq<char>
    decreases s.len(),
{
    if s.len() > 0 && is_ws(s[0]) {
        trim_start(s.drop_first())
    } else {
        s
    }
}

/// `s` without its trailing whitespace.
pub open spec fn trim_end(s: Seq<char>) -> Seq<char>
    decreases s.len(),
{
    if s.len() > 0 && is_ws(s.last()) {
        trim_end(s.drop_last())
    } else {
        s
    }
}

/// `str::trim`: `s` without leading and trailing whitespace.
pub open spec fn trim(s: Seq<char>) -> Seq<char> {
    trim_end(trim_start(s))
}

/// `needle` occurs in `hay` starting at position `i`.
pub open spec fn occurs_at(hay: Seq<char>, needle: Seq<char>, i: int) -> bool {
    0 <= i && i + needle.len() <= hay.len() && hay.subrange(i, i + needle.len()) == needle
}

/// The first position at or after `k` where `needle` occurs in `hay`.
pub open spec fn find_from(hay: Seq<char>, needle: Seq<char>, k: int) -> Option<int>
    decreases hay.len() + 1 - k,
{
    if k < 0 || k + needle.len() > hay.len() {
        None
    } else if occurs_at(hay, needle, k) {
        Some(k)
    } else {
        find_from(hay, needle, k + 1)
    }
}

/// `str::find`: the first position where `needle` occurs in `hay`.
pub open spec fn find(hay: Seq<char>, needle: Seq<char>) -> Option<int> {
    find_from(hay, needle, 0)
}

/// `str::contains`.
pub open spec fn contains(hay: Seq<char>, needle: Seq<char>) -> bool {
    find(hay, needle) is Some
}

/// `str::starts_with`.
pub open spec fn starts_with(s: Seq<char>, prefix: Seq<char>) -> bool {
    prefix.len() <= s.len() && s.take(prefix.len() as int) == prefix
}

/// `str::ends_with`.
pub open spec fn ends_with(s: Seq<char>, suffix: Seq<char>) -> bool {
    suffix.len() <= s.len() && s.skip(s.len() - suffix.len()) == suffix
}

/// `str::split` on a single character: the pieces between the separators,
/// empty pieces included.
pub open spec fn split_on(s: Seq<char>, sep: char) -> Seq<Seq<char>>
    decreases s.len(),
{
    if s.len() == 0 {
        seq![Seq::<char>::empty()]
    } else {
        let prev = split_on(s.drop_last(), sep);
        if s.last() == sep {
            prev.push(Seq::<char>::empty())
        } else {
            prev.update(prev.len() - 1, prev.last().push(s.last()))
        }
    }
}

/// `str::len`: the number of bytes of the UTF-8 encoding of `s`.
pub open spec fn utf8_len(s: Seq<char>) -> nat {
    encode_utf8(s).len()
}

/// The byte offset, in the UTF-8 encoding of `s`, of the character at index `k`.
pub open spec fn byte_offset(s: Seq<char>, k: int) -> nat {
    utf8_len(s.take(k))
}

/// Byte `b` of the UTF-8 encoding of `s` starts a character (or is its end):
/// `str::is_char_boundary`.
pub open spec fn is_char_boundary_at(s: Seq<char>, b: nat) -> bool {
    exists|k: int| 0 <= k <= s.len() && byte_offset(s, k) == b
}

/// The view of an optional string.
pub open spec fn opt_view(o: Option<String>) -> Option<Seq<char>> {
    match o {
        Some(s) => Some(s@),
        None => None,
    }
}

/// The views of a sequence of strings.
pub open spec fn views(v: Seq<String>) -> Seq<Seq<char>> {
    v.map_values(|s: String| s@)
}

/// `[T]::join` on strings with separator `sep`.
pub open spec fn join(parts: Seq<Seq<char>>, sep: Seq<char>) -> Seq<char>
    decreases parts.len(),
{
    if parts.len() == 0 {
        Seq::<char>::empty()
    } else if parts.len() == 1 {
        parts[0]
    } else {
        join(parts.drop_last(), sep) + sep + parts.last()
    }
}

/// `find_from` gives the first occurrence at or after `k`.
pub proof fn lemma_find_from(hay: Seq<char>, needle: Seq<char>, k: int)
    requires
        0 <= k,
    ensures
        match find_from(hay, needle, k) {
            Some(j) => k <= j && occurs_at(hay, needle, j) && forall|m: int|
                k <= m < j ==> !occurs_at(hay, needle, m),
            None => forall|m: int| k <= m ==> !occurs_at(hay, needle, m),
        },
    decreases hay.len() + 1 - k,
{
    if k + needle.len() > hay.len() {
    } else if occurs_at(hay, needle, k) {
    } else {
        lemma_find_from(hay, needle, k + 1);
    }
}

/// `trim_start` gives a suffix that does not start with whitespace.
pub proof fn lemma_trim_start_shape(s: Seq<char>)
    ensures
        trim_start(s).len() <= s.len(),
        trim_start(s) == s.skip(s.len() - trim_start(s).len()),
        trim_start(s).len() == 0 || !is_ws(trim_start(s)[0]),
    decreases s.len(),
{
    if s.len() > 0 && is_ws(s[0]) {
        lemma_trim_start_shape(s.drop_first());
        assert(s.drop_first().skip(s.drop_first().len() - trim_start(s).len()) =~= s.skip(
            s.len() - trim_start(s).len(),
        ));
    } else {
        assert(s.skip(0) =~= s);
    }
}

/// `trim_end` gives a prefix that does not end with whitespace.
pub proof fn lemma_trim_end_shape(s: Seq<char>)
    ensures
        trim_end(s).len() <= s.len(),
        trim_end(s) == s.take(trim_end(s).len() as int),
        trim_end(s).len() == 0 || !is_ws(trim_end(s).last()),
    decreases s.len(),
{
    if s.len() > 0 && is_ws(s.last()) {
        lemma_trim_end_shape(s.drop_last());
        assert(s.drop_last().take(trim_end(s).len() as int) =~= s.take(trim_end(s).len() as int));
    } else {
        assert(s.take(s.len() as int) =~= s);
    }
}

/// `trim_end` keeps a sequence that does not end with whitespace.
pub proof fn lemma_trim_end_keeps(s: Seq<char>)
    requires
        s.len() == 0 || !is_ws(s.last()),
    ensures
        trim_end(s) == s,
{
}

/// Trimming the end of a text that starts with a non-whitespace character leaves it non-empty.
pub proof fn lemma_trim_end_nonempty(s: Seq<char>)
    requires
        s.len() > 0,
        !is_ws(s[0]),
    ensures
        trim_end(s).len() > 0,
    decreases s.len(),
{
    if is_ws(s.last()) {
        assert(s.len() > 1);
        assert(s.drop_last()[0] == s[0]);
        lemma_trim_end_nonempty(s.drop_last());
    }
}

/// A trimmed text neither starts nor ends with whitespace.
pub proof fn lemma_trim_shape(s: Seq<char>)
    ensures
        trim(s).len() == 0 || (!is_ws(trim(s)[0]) && !is_ws(trim(s).last())),
{
    let a = trim_start(s);
    lemma_trim_start_shape(s);
    lemma_trim_end_shape(a);
    let b = trim_end(a);
    if b.len() > 0 {
        assert(b[0] == a[0]);
    }
}

/// Trimming twice is trimming once.
pub proof fn lemma_trim_idempotent(s: Seq<char>)
    ensures
        trim(trim(s)) == trim(s),
{
    let t = trim(s);
    lemma_trim_shape(s);
    if t.len() > 0 {
        assert(trim_start(t) == t);
        lemma_trim_end_keeps(t);
    } else {
        assert(trim_start(t) == t);
    }
}

/// `c` does not occur in `s`.
pub open spec fn free_of(s: Seq<char>, c: char) -> bool {
    forall|i: int| 0 <= i < s.len() ==> #[trigger] s[i] != c
}

/// The pieces of a split hold no separator.
pub proof fn lemma_split_on_free(s: Seq<char>, sep: char)
    ensures
        forall|k: int| 0 <= k < split_on(s, sep).len() ==> free_of(#[trigger] split_on(s, sep)[k], sep),
    decreases s.len(),
{
    if s.len() > 0 {
        lemma_split_on_free(s.drop_last(), sep);
        lemma_split_on_nonempty(s.drop_last(), sep);
        let prev = split_on(s.drop_last(), sep);
        let cur = split_on(s, sep);
        assert forall|k: int| 0 <= k < cur.len() implies free_of(#[trigger] cur[k], sep) by {
            if s.last() == sep {
                if k < prev.len() {
                    assert(cur[k] == prev[k]);
                } else {
                    assert(cur[k] =~= Seq::<char>::empty());
                }
            } else {
                if k < prev.len() - 1 {
                    assert(cur[k] == prev[k]);
                } else {
                    assert(cur[k] == prev.last().push(s.last()));
                    assert(free_of(prev[prev.len() - 1], sep));
                    assert forall|i: int| 0 <= i < cur[k].len() implies #[trigger] cur[k][i] != sep by {
                        if i < prev.last().len() {
                            assert(cur[k][i] == prev.last()[i]);
                        }
                    }
                }
            }
        }
    }
}

/// Trimming removes characters only at the ends.
pub proof fn lemma_trim_free(s: Seq<char>, c: char)
    requires
        free_of(s, c),
    ensures
        free_of(trim(s), c),
{
    lemma_trim_start_shape(s);
    let a = trim_start(s);
    lemma_trim_end_shape(a);
    assert forall|i: int| 0 <= i < trim(s).len() implies #[trigger] trim(s)[i] != c by {
        assert(trim(s)[i] == a[i]);
        assert(a[i] == s[s.len() - a.len() + i]);
    }
}

/// The trimmed pieces of a split are trimmed and hold no separator.
pub proof fn lemma_trimmed_pieces_clean(s: Seq<char>, sep: char)
    ensures
        forall|k: int|
            0 <= k < trimmed_pieces(s, sep).len() ==> {
                let p = #[trigger] trimmed_pieces(s, sep)[k];
                trim(p) == p && free_of(p, sep)
            },
{
    lemma_split_on_free(s, sep);
    assert forall|k: int| 0 <= k < trimmed_pieces(s, sep).len() implies {
        let p = #[trigger] trimmed_pieces(s, sep)[k];
        trim(p) == p && free_of(p, sep)
    } by {
        let q = split_on(s, sep)[k];
        assert(trimmed_pieces(s, sep)[k] == trim(q));
        lemma_trim_idempotent(q);
        lemma_trim_free(q, sep);
    }
}

/// `find_from` finds an occurrence that no earlier one at or after `k` precedes.
pub proof fn lemma_find_from_first(hay: Seq<char>, needle: Seq<char>, k: int, j: int)
    requires
        0 <= k <= j,
        occurs_at(hay, needle, j),
        forall|m: int| k <= m < j ==> !occurs_at(hay, needle, m),
    ensures
        find_from(hay, needle, k) == Some(j),
    decreases j - k,
{
    if k < j {
        assert(!occurs_at(hay, needle, k));
        lemma_find_from_first(hay, needle, k + 1, j);
    }
}

/// A needle that occurs somewhere is contained.
pub proof fn lemma_occurs_contains(hay: Seq<char>, needle: Seq<char>, i: int)
    requires
        occurs_at(hay, needle, i),
    ensures
        contains(hay, needle),
{
    lemma_find_from(hay, needle, 0);
}

/// An occurrence inside `b` is an occurrence inside `a + b + c`, shifted by `a`.
pub proof fn lemma_occurs_in_concat(a: Seq<char>, b: Seq<char>, c: Seq<char>, needle: Seq<char>, i: int)
    requires
        occurs_at(b, needle, i),
    ensures
        occurs_at(a + b + c, needle, a.len() + i),
{
    assert((a + b + c).subrange(a.len() + i, a.len() + i + needle.len()) =~= b.subrange(
        i,
        i + needle.len(),
    ));
}

/// What `trim_end` drops is whitespace.
pub proof fn lemma_trim_end_drops_ws(s: Seq<char>)
    ensures
        forall|i: int| trim_end(s).len() <= i < s.len() ==> is_ws(#[trigger] s[i]),
    decreases s.len(),
{
    lemma_trim_end_shape(s);
    if s.len() > 0 && is_ws(s.last()) {
        lemma_trim_end_drops_ws(s.drop_last());
        assert forall|i: int| trim_end(s).len() <= i < s.len() implies is_ws(#[trigger] s[i]) by {
            if i < s.len() - 1 {
                assert(s.drop_last()[i] == s[i]);
            }
        }
    }
}

/// An occurrence that ends in a non-whitespace character, in a text that
/// starts with a non-whitespace character, survives trimming.
pub proof fn lemma_occurs_survives_trim(s: Seq<char>, needle: Seq<char>, i: int)
    requires
        occurs_at(s, needle, i),
        needle.len() > 0,
        !is_ws(needle.last()),
        !is_ws(s[0]),
    ensures
        contains(trim(s), needle),
{
    assert(trim_start(s) == s);
    lemma_trim_end_shape(s);
    lemma_trim_end_drops_ws(s);
    let t = trim_end(s);
    let last = i + needle.len() - 1;
    assert(s[last] == needle.last());
    assert(last < t.len());
    assert(t.subrange(i, i + needle.len()) =~= s.subrange(i, i + needle.len()));
    lemma_occurs_contains(t, needle, i);
}

/// Each part of a join, with the separator before it, occurs in the join
/// with a separator before it.
pub proof fn lemma_join_part_at(parts: Seq<Seq<char>>, sep: Seq<char>, k: int) -> (i: int)
    requires
        0 <= k < parts.len(),
    ensures
        occurs_at(sep + join(parts, sep), sep + parts[k], i),
    decreases parts.len(),
{
    if parts.len() == 1 {
        assert((sep + join(parts, sep)).subrange(0, (sep + parts[k]).len() as int) =~= sep + parts[k]);
        0
    } else {
        let prev = parts.drop_last();
        let whole = sep + join(parts, sep);
        let head = sep + join(prev, sep);
        assert(whole =~= head + sep + parts.last());
        if k < parts.len() - 1 {
            let j = lemma_join_part_at(prev, sep, k);
            assert(prev[k] == parts[k]);
            assert(whole.subrange(j, j + (sep + parts[k]).len()) =~= head.subrange(
                j,
                j + (sep + parts[k]).len(),
            ));
            j
        } else {
            let j = head.len() as int;
            assert(whole.subrange(j, j + (sep + parts[k]).len()) =~= sep + parts[k]);
            j
        }
    }
}

/// Joining the pieces of a split with the separator gives the text back.
pub proof fn law_split_on_rejoins(s: Seq<char>, sep: char)
    ensures
        join(split_on(s, sep), seq![sep]) == s,
    decreases s.len(),
{
    if s.len() == 0 {
        assert(join(split_on(s, sep), seq![sep]) =~= s);
    } else {
        let prev = split_on(s.drop_last(), sep);
        law_split_on_rejoins(s.drop_last(), sep);
        lemma_split_on_nonempty(s.drop_last(), sep);
        let cur = split_on(s, sep);
        if s.last() == sep {
            assert(cur.drop_last() =~= prev);
            assert(join(cur, seq![sep]) =~= s.drop_last() + seq![sep] + Seq::<char>::empty());
            assert(s =~= s.drop_last() + seq![sep]);
        } else {
            let x = prev.last().push(s.last());
            assert(cur == prev.update(prev.len() - 1, x));
            if prev.len() == 1 {
                assert(join(prev, seq![sep]) == prev[0]);
                assert(join(cur, seq![sep]) == cur[0]);
                assert(s =~= s.drop_last().push(s.last()));
            } else {
                assert(cur.drop_last() =~= prev.drop_last());
                assert(cur.last() == x);
                assert(join(cur, seq![sep]) == join(cur.drop_last(), seq![sep]) + seq![sep] + x);
                assert(join(prev, seq![sep]) == join(prev.drop_last(), seq![sep]) + seq![sep]
                    + prev.last());
                assert(s =~= s.drop_last().push(s.last()));
                assert(join(cur, seq![sep]) =~= join(prev, seq![sep]).push(s.last()));
            }
        }
    }
}

/// A text of ASCII characters takes one byte per character.
pub proof fn lemma_ascii_utf8_len(s: Seq<char>)
    requires
        forall|i: int| 0 <= i < s.len() ==> (#[trigger] s[i] as u32) < 0x80,
    ensures
        utf8_len(s) == s.len(),
    decreases s.len(),
{
    if s.len() > 0 {
        assert(s.drop_last().len() == s.len() - 1);
        assert forall|i: int| 0 <= i < s.drop_last().len() implies (#[trigger] s.drop_last()[i] as u32)
            < 0x80 by {
            assert(s.drop_last()[i] == s[i]);
        }
        lemma_ascii_utf8_len(s.drop_last());
        assert(s =~= s.drop_last().push(s.last()));
        lemma_utf8_len_push(s.drop_last(), s.last());
        assert((s[s.len() - 1] as u32) < 0x80);
    }
}

pub proof fn lemma_split_on_nonempty(s: Seq<char>, sep: char)
    ensures
        split_on(s, sep).len() >= 1,
    decreases s.len(),
{
    if s.len() > 0 {
        lemma_split_on_nonempty(s.drop_last(), sep);
    }
}

pub proof fn lemma_encode_utf8_concat(a: Seq<char>, b: Seq<char>)
    ensures
        encode_utf8(a + b) == encode_utf8(a) + encode_utf8(b),
    decreases a.len(),
{
    if a.len() == 0 {
        assert(a + b =~= b);
        assert(encode_utf8(a) + encode_utf8(b) =~= encode_utf8(b));
    } else {
        assert((a + b).drop_first() =~= a.drop_first() + b);
        assert((a + b)[0] == a[0]);
        lemma_encode_utf8_concat(a.drop_first(), b);
        assert(encode_utf8(a + b) =~= encode_scalar(a[0] as u32) + (encode_utf8(a.drop_first())
            + encode_utf8(b)));
        assert(encode_utf8(a) + encode_utf8(b) =~= encode_scalar(a[0] as u32) + (encode_utf8(
            a.drop_first(),
        ) + encode_utf8(b)));
    }
}

pub proof fn lemma_utf8_len_push(s: Seq<char>, c: char)
    ensures
        utf8_len(s.push(c)) == utf8_len(s) + encode_scalar(c as u32).len(),
        encode_scalar(c as u32).len() >= 1,
{
    lemma_encode_utf8_concat(s, seq![c]);
    assert(s.push(c) =~= s + seq![c]);
    assert(seq![c].drop_first() =~= Seq::<char>::empty());
    assert(encode_utf8(seq![c]) =~= encode_scalar(c as u32) + encode_utf8(Seq::<char>::empty()));
}

/// Every character takes at least one byte.
pub proof fn lemma_utf8_len_at_least_len(s: Seq<char>)
    ensures
        utf8_len(s) >= s.len(),
    decreases s.len(),
{
    if s.len() > 0 {
        lemma_utf8_len_at_least_len(s.drop_last());
        assert(s =~= s.drop_last().push(s.last()));
        lemma_utf8_len_push(s.drop_last(), s.last());
    }
}

/// A single character takes more than one byte exactly when it is not ASCII.
pub proof fn lemma_utf8_len_single(s: Seq<char>)
    requires
        s.len() == 1,
    ensures
        utf8_len(s) > 1 <==> (s[0] as u32) >= 0x80,
{
    assert(s =~= Seq::<char>::empty().push(s[0]));
    lemma_utf8_len_push(Seq::<char>::empty(), s[0]);
    assert(encode_utf8(Seq::<char>::empty()) =~= Seq::<u8>::empty());
}

/// Byte offsets grow strictly with the character index.
pub proof fn lemma_byte_offset_strict(s: Seq<char>, j: int, k: int)
    requires
        0 <= j <= k <= s.len(),
    ensures
        byte_offset(s, j) <= byte_offset(s, k),
        j < k ==> byte_offset(s, j) < byte_offset(s, k),
    decreases k - j,
{
    if j < k {
        lemma_byte_offset_strict(s, j, k - 1);
        assert(s.take(k) =~= s.take(k - 1).push(s[k - 1]));
        lemma_utf8_len_push(s.take(k - 1), s[k - 1]);
    }
}

/// The length in bytes of the UTF-8 encoding of `c`: `char::len_utf8`.
pub fn utf8_width(c: char) -> (w: usize)
    ensures
        w == encode_scalar(c as u32).len(),
        1 <= w <= 4,
{
    let u = c as u32;
    if u < 0x80 {
        1
    } else if u < 0x800 {
        2
    } else if u < 0x10000 {
        proof {
            vstd::utf8::char_is_scalar(c);
        }
        3
    } else {
        4
    }
}

/// Appends `c` to `s` with `String::push`. Trusted: the contract claims
/// that afterwards `s` holds its old characters followed by `c`, which is
/// what std documents of `push`.
#[verifier::external_body]
pub(crate) fn push_char(s: &mut String, c: char)
    ensures
        final(s)@ == old(s)@.push(c),
{
    s.push(c)
}

/// The characters of `s`, in order.
pub fn chars_of(s: &str) -> (v: Vec<char>)
    ensures
        v@ == s@,
{
    let mut v: Vec<char> = Vec::new();
    for c in it: s.chars()
        invariant
            v@ == it.seq().take(it.index()),
            it.seq() == s@,
    {
        v.push(c);
    }
    v
}

/// The string made of `v[lo..hi]`.
pub fn string_of(v: &Vec<char>, lo: usize, hi: usize) -> (s: String)
    requires
        lo <= hi <= v@.len(),
    ensures
        s@ == v@.subrange(lo as int, hi as int),
{
    let mut s = String::new();
    let mut i = lo;
    while i < hi
        invariant
            lo <= i <= hi <= v@.len(),
            s@ == v@.subrange(lo as int, i as int),
        decreases hi - i,
    {
        push_char(&mut s, v[i]);
        assert(v@.subrange(lo as int, i + 1) == v@.subrange(lo as int, i as int).push(v@[i as int]));
        i = i + 1;
    }
    s
}

/// `char::is_whitespace`.
pub fn is_whitespace(c: char) -> (b: bool)
    ensures
        b == is_ws(c),
{
    ('\u{9}' <= c && c <= '\u{d}') || c == ' ' || c == '\u{85}' || c == '\u{a0}' || c == '\u{1680}'
        || ('\u{2000}' <= c && c <= '\u{200a}') || c == '\u{2028}' || c == '\u{2029}' || c
        == '\u{202f}' || c == '\u{205f}' || c == '\u{3000}'
}

proof fn lemma_trim_start_step(v: Seq<char>, i: int)
    requires
        0 <= i < v.len(),
        is_ws(v[i]),
    ensures
        trim_start(v.subrange(i, v.len() as int)) == trim_start(v.subrange(i + 1, v.len() as int)),
{
    let s = v.subrange(i, v.len() as int);
    assert(s.drop_first() == v.subrange(i + 1, v.len() as int));
}

proof fn lemma_trim_end_step(v: Seq<char>, lo: int, j: int)
    requires
        0 <= lo < j <= v.len(),
        is_ws(v[j - 1]),
    ensures
        trim_end(v.subrange(lo, j)) == trim_end(v.subrange(lo, j - 1)),
{
    let s = v.subrange(lo, j);
    assert(s.drop_last() == v.subrange(lo, j - 1));
}

/// The bounds of `trim(v[lo..hi])` within `v`.
pub fn trim_bounds(v: &Vec<char>, lo: usize, hi: usize) -> (r: (usize, usize))
    requires
        lo <= hi <= v@.len(),
    ensures
        lo <= r.0 <= r.1 <= hi,
        v@.subrange(r.0 as int, r.1 as int) == trim(v@.subrange(lo as int, hi as int)),
{
    let mut i = lo;
    while i < hi && is_whitespace(v[i])
        invariant
            lo <= i <= hi <= v@.len(),
            trim_start(v@.subrange(lo as int, hi as int)) == trim_start(v@.subrange(i as int, hi as int)),
        decreases hi - i,
    {
        proof {
            let w = v@.subrange(0, hi as int);
            lemma_trim_start_step(w, i as int);
            assert(w.subrange(i as int, hi as int) == v@.subrange(i as int, hi as int));
            assert(w.subrange(i + 1, hi as int) == v@.subrange(i + 1, hi as int));
        }
        i = i + 1;
    }
    proof {
        let s = v@.subrange(i as int, hi as int);
        if i < hi {
            assert(s[0] == v@[i as int]);
        }
        assert(trim_start(s) == s);
    }
    let mut j = hi;
    while j > i && is_whitespace(v[j - 1])
        invariant
            lo <= i <= j <= hi <= v@.len(),
            trim_end(v@.subrange(i as int, hi as int)) == trim_end(v@.subrange(i as int, j as int)),
        decreases j - i,
    {
        proof {
            lemma_trim_end_step(v@, i as int, j as int);
        }
        j = j - 1;
    }
    proof {
        let s = v@.subrange(i as int, j as int);
        if j > i {
            assert(s.last() == v@[j - 1]);
        }
        assert(trim_end(s) == s);
    }
    (i, j)
}

/// `str::trim`, giving an owned string.
pub fn trim_str(s: &str) -> (r: String)
    ensures
        r@ == trim(s@),
{
    let v = chars_of(s);
    let (a, b) = trim_bounds(&v, 0, v.len());
    proof {
        assert(v@.subrange(0, v@.len() as int) == v@);
    }
    string_of(&v, a, b)
}

/// Whether `needle` occurs in `hay` at position `i`.
pub fn matches_at(hay: &Vec<char>, needle: &Vec<char>, i: usize) -> (b: bool)
    ensures
        b == occurs_at(hay@, needle@, i as int),
{
    if i > hay.len() || needle.len() > hay.len() - i {
        return false;
    }
    let mut k: usize = 0;
    while k < needle.len()
        invariant
            i + needle@.len() <= hay@.len(),
            0 <= k <= needle@.len(),
            forall|m: int| 0 <= m < k ==> hay@[i + m] == needle@[m],
        decreases needle@.len() - k,
    {
        assert(i + k < hay.len());
        if hay[i + k] != needle[k] {
            proof {
                assert(hay@.subrange(i as int, i + needle@.len())[k as int] != needle@[k as int]);
            }
            return false;
        }
        k = k + 1;
    }
    proof {
        assert(hay@.subrange(i as int, i + needle@.len()) =~= needle@);
    }
    true
}

/// The first position at or after `k` where `needle` occurs in `hay`.
pub fn find_chars_from(hay: &Vec<char>, needle: &Vec<char>, k: usize) -> (r: Option<usize>)
    ensures
        match r {
            Some(i) => find_from(hay@, needle@, k as int) == Some(i as int),
            None => find_from(hay@, needle@, k as int) is None,
        },
        r matches Some(i) ==> k <= i && i + needle@.len() <= hay@.len() && occurs_at(
            hay@,
            needle@,
            i as int,
        ),
{
    proof {
        lemma_find_from(hay@, needle@, k as int);
    }
    if needle.len() > hay.len() || k > hay.len() - needle.len() {
        return None;
    }
    let last = hay.len() - needle.len();
    let mut i = k;
    loop
        invariant
            k <= i <= last,
            last + needle@.len() == hay@.len(),
            find_from(hay@, needle@, k as int) == find_from(hay@, needle@, i as int),
        decreases last - i,
    {
        if matches_at(hay, needle, i) {
            return Some(i);
        }
        if i == last {
            assert(find_from(hay@, needle@, i + 1) is None);
            return None;
        }
        i = i + 1;
    }
}

/// `str::find` over character vectors.
pub fn find_chars(hay: &Vec<char>, needle: &Vec<char>) -> (r: Option<usize>)
    ensures
        match r {
            Some(i) => find(hay@, needle@) == Some(i as int),
            None => find(hay@, needle@) is None,
        },
        r matches Some(i) ==> i + needle@.len() <= hay@.len() && occurs_at(hay@, needle@, i as int),
{
    find_chars_from(hay, needle, 0)
}

/// `str::contains`.
pub fn contains_str(hay: &str, needle: &str) -> (b: bool)
    ensures
        b == contains(hay@, needle@),
{
    let h = chars_of(hay);
    let n = chars_of(needle);
    find_chars(&h, &n).is_some()
}

/// `str::starts_with`.
pub fn starts_with_str(s: &str, prefix: &str) -> (b: bool)
    ensures
        b == starts_with(s@, prefix@),
{
    let v = chars_of(s);
    let p = chars_of(prefix);
    let b = matches_at(&v, &p, 0);
    proof {
        if b {
            assert(v@.subrange(0, p@.len() as int) == v@.take(p@.len() as int));
        }
        if starts_with(s@, prefix@) {
            assert(v@.subrange(0, p@.len() as int) == v@.take(p@.len() as int));
        }
    }
    b
}

/// `str::ends_with`.
pub fn ends_with_str(s: &str, suffix: &str) -> (b: bool)
    ensures
        b == ends_with(s@, suffix@),
{
    let v = chars_of(s);
    let p = chars_of(suffix);
    if p.len() > v.len() {
        return false;
    }
    let b = matches_at(&v, &p, v.len() - p.len());
    proof {
        assert(v@.subrange(v@.len() - p@.len(), v@.len() as int) == v@.skip(v@.len() - p@.len()));
    }
    b
}

/// `str` equality.
pub fn str_eq(a: &str, b: &str) -> (r: bool)
    ensures
        r == (a@ == b@),
{
    let va = chars_of(a);
    let vb = chars_of(b);
    if va.len() != vb.len() {
        return false;
    }
    let mut k: usize = 0;
    while k < va.len()
        invariant
            va@ == a@,
            vb@ == b@,
            va@.len() == vb@.len(),
            k <= va@.len(),
            forall|m: int| 0 <= m < k ==> va@[m] == vb@[m],
        decreases va@.len() - k,
    {
        if va[k] != vb[k] {
            return false;
        }
        k = k + 1;
    }
    assert(va@ =~= vb@);
    true
}

/// The decimal digit `d` as a character.
pub open spec fn digit_char(d: nat) -> char {
    (d + 48) as char
}

/// The decimal digits of `n`, without leading zeros.
pub open spec fn decimal_nat(n: nat) -> Seq<char>
    decreases n,
{
    if n < 10 {
        seq![digit_char(n)]
    } else {
        decimal_nat(n / 10).push(digit_char(n % 10))
    }
}

/// How `Display` writes the integer `n`: a `-` for negative numbers, then the digits.
pub open spec fn decimal(n: int) -> Seq<char> {
    if n < 0 {
        seq!['-'] + decimal_nat((-n) as nat)
    } else {
        decimal_nat(n as nat)
    }
}

fn push_decimal(s: &mut String, n: u64)
    ensures
        final(s)@ == old(s)@ + decimal_nat(n as nat),
    decreases n,
{
    if n < 10 {
        let c = ((n as u8) + 48) as char;
        push_char(s, c);
        assert(old(s)@.push(c) =~= old(s)@ + seq![c]);
    } else {
        push_decimal(s, n / 10);
        let c = (((n % 10) as u8) + 48) as char;
        let ghost mid = s@;
        push_char(s, c);
        assert(s@ =~= old(s)@ + decimal_nat((n / 10) as nat).push(c));
    }
}

/// `n.to_string()` for an `i32`.
pub fn i32_to_decimal(n: i32) -> (r: String)
    ensures
        r@ == decimal(n as int),
{
    let mut s = String::new();
    if n < 0 {
        push_char(&mut s, '-');
        let m: u64 = (0i64 - (n as i64)) as u64;
        push_decimal(&mut s, m);
        assert(s@ =~= seq!['-'] + decimal_nat((-(n as int)) as nat));
    } else {
        push_decimal(&mut s, n as u64);
        assert(s@ =~= decimal_nat(n as nat));
    }
    s
}

/// The decimal digits of `n`, as `to_string` writes them.
pub fn usize_to_decimal(n: usize) -> (r: String)
    ensures
        r@ == decimal_nat(n as nat),
{
    let mut s = String::new();
    push_decimal(&mut s, n as u64);
    assert(s@ =~= decimal_nat(n as nat));
    s
}

/// The pieces of `s` between the separators, each trimmed.
pub open spec fn trimmed_pieces(s: Seq<char>, sep: char) -> Seq<Seq<char>> {
    split_on(s, sep).map_values(|p: Seq<char>| trim(p))
}

/// `s.split(sep).map(|p| p.trim())`, as owned strings.
pub fn split_trimmed(text: &str, sep: char) -> (r: Vec<String>)
    ensures
        views(r@) == trimmed_pieces(text@, sep),
{
    let v = chars_of(text);
    let mut r: Vec<String> = Vec::new();
    let mut start: usize = 0;
    let mut k: usize = 0;
    let ghost mut done: Seq<Seq<char>> = Seq::empty();
    proof {
        assert(v@.take(0) =~= Seq::<char>::empty());
        assert(split_on(v@.take(0), sep) =~= done.push(v@.subrange(0, 0)));
        assert(views(r@) =~= done.map_values(|p: Seq<char>| trim(p)));
    }
    while k < v.len()
        invariant
            v@ == text@,
            start <= k <= v@.len(),
            split_on(v@.take(k as int), sep) == done.push(v@.subrange(start as int, k as int)),
            views(r@) == done.map_values(|p: Seq<char>| trim(p)),
        decreases v@.len() - k,
    {
        let c = v[k];
        proof {
            assert(v@.take(k + 1).drop_last() =~= v@.take(k as int));
            assert(v@.take(k + 1).last() == c);
        }
        if c == sep {
            let (a, b) = trim_bounds(&v, start, k);
            let ghost piece = v@.subrange(start as int, k as int);
            let ghost before = r@;
            let t = string_of(&v, a, b);
            r.push(t);
            proof {
                assert(views(r@) =~= views(before).push(trim(piece)));
                assert(done.push(piece).map_values(|p: Seq<char>| trim(p)) =~= done.map_values(
                    |p: Seq<char>| trim(p),
                ).push(trim(piece)));
                done = done.push(piece);
                assert(v@.subrange(k + 1, k + 1) =~= Seq::<char>::empty());
            }
            start = k + 1;
        } else {
            proof {
                assert(v@.subrange(start as int, k + 1) =~= v@.subrange(start as int, k as int).push(
                    c,
                ));
            }
        }
        k = k + 1;
    }
    let (a, b) = trim_bounds(&v, start, k);
    let ghost piece = v@.subrange(start as int, k as int);
    let ghost before = r@;
    let t = string_of(&v, a, b);
    r.push(t);
    proof {
        assert(v@.take(k as int) =~= v@);
        assert(views(r@) =~= views(before).push(trim(piece)));
        assert(done.push(piece).map_values(|p: Seq<char>| trim(p)) =~= done.map_values(
            |p: Seq<char>| trim(p),
        ).push(trim(piece)));
    }
    r
}

/// Appends `parts` joined by `sep` to `s`.
pub fn append_joined(s: &mut String, parts: &Vec<String>, sep: &str)
    ensures
        final(s)@ == old(s)@ + join(views(parts@), sep@),
{
    let ghost start = s@;
    let ghost ps = views(parts@);
    let mut k: usize = 0;
    proof {
        assert(ps.take(0) =~= Seq::<Seq<char>>::empty());
        assert(s@ =~= start + join(ps.take(0), sep@));
    }
    while k < parts.len()
        invariant
            ps == views(parts@),
            k <= parts@.len(),
            s@ == start + join(ps.take(k as int), sep@),
        decreases parts@.len() - k,
    {
        proof {
            assert(ps.take(k + 1).drop_last() =~= ps.take(k as int));
            assert(ps.take(k + 1).last() == parts@[k as int]@);
            assert(ps.take(k + 1).len() == k + 1);
        }
        if k > 0 {
            s.append(sep);
        }
        s.append(parts[k].as_str());
        proof {
            if k == 0 {
                assert(ps.take(1)[0] == parts@[0]@);
                assert(ps.take(0) =~= Seq::<Seq<char>>::empty());
            }
            assert(s@ =~= start + join(ps.take(k + 1), sep@));
        }
        k = k + 1;
    }
    proof {
        assert(ps.take(parts@.len() as int) =~= ps);
    }
}

} // verus!
