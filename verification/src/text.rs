use vstd::prelude::*;
use vstd::multiset::Multiset;
use vstd::std_specs::iter::IteratorSpec;

verus! {

// ---------------------------------------------------------------------------
// Mathematical model of text: a string is its sequence of characters.
// ---------------------------------------------------------------------------

/// The Unicode `White_Space` characters, as `char::is_whitespace` classifies them.
pub open spec fn is_space(c: char) -> bool {
    let u = c as u32;
    ||| 0x9 <= u <= 0xd
    ||| u == 0x20
    ||| u == 0x85
    ||| u == 0xa0
    ||| u == 0x1680
    ||| 0x2000 <= u <= 0x200a
    ||| u == 0x2028
    ||| u == 0x2029
    ||| u == 0x202f
    ||| u == 0x205f
    ||| u == 0x3000
}

/// `s` without its leading whitespace.
pub open spec fn trim_start(s: Seq<char>) -> Seq<char>
    decreases s.len(),
{
    if s.len() > 0 && is_space(s[0]) {
        trim_start(s.drop_first())
    } else {
        s
    }
}

/// `s` without its trailing whitespace.
pub open spec fn trim_end(s: Seq<char>) -> Seq<char>
    decreases s.len(),
{
    if s.len() > 0 && is_space(s.last()) {
        trim_end(s.drop_last())
    } else {
        s
    }
}

/// `s` without leading and trailing whitespace (what `str::trim` gives).
pub open spec fn trim(s: Seq<char>) -> Seq<char> {
    trim_end(trim_start(s))
}

/// Whether `s` is blank, that is, nothing is left of it once trimmed.
pub open spec fn is_blank(s: Seq<char>) -> bool {
    trim(s).len() == 0
}

/// `pat` occurs in `s` starting at index `i`.
pub open spec fn occurs_at(s: Seq<char>, pat: Seq<char>, i: int) -> bool {
    &&& 0 <= i
    &&& i + pat.len() <= s.len()
    &&& s.subrange(i, i + pat.len()) == pat
}

/// `pat` occurs somewhere in `s` (what `str::contains` with a string pattern gives).
pub open spec fn contains(s: Seq<char>, pat: Seq<char>) -> bool {
    exists|i: int| #[trigger] occurs_at(s, pat, i)
}

/// `c` occurs in `s`.
pub open spec fn has_char(s: Seq<char>, c: char) -> bool {
    exists|i: int| 0 <= i < s.len() && s[i] == c
}

/// The parts of `list` joined with `sep` between each two neighbours.
pub open spec fn join(list: Seq<Seq<char>>, sep: Seq<char>) -> Seq<char>
    decreases list.len(),
{
    if list.len() == 0 {
        Seq::empty()
    } else if list.len() == 1 {
        list[0]
    } else {
        join(list.drop_last(), sep) + sep + list.last()
    }
}

/// The trimmed entries of `list` that are not empty once trimmed, in order.
pub open spec fn trimmed_nonblank(list: Seq<Seq<char>>) -> Seq<Seq<char>>
    decreases list.len(),
{
    if list.len() == 0 {
        Seq::empty()
    } else {
        let rest = trimmed_nonblank(list.drop_last());
        if is_blank(list.last()) {
            rest
        } else {
            rest.push(trim(list.last()))
        }
    }
}

/// ASCII lower-casing of one character.
pub open spec fn ascii_lower(c: char) -> char {
    if 'A' <= c <= 'Z' {
        ((c as u32) + 32) as char
    } else {
        c
    }
}

/// ASCII lower-casing of a text (what `str::to_ascii_lowercase` gives).
pub open spec fn ascii_lowercase(s: Seq<char>) -> Seq<char> {
    s.map_values(|c: char| ascii_lower(c))
}

/// The decimal digit for `d < 10`.
pub open spec fn digit_char(d: nat) -> char {
    ((d + 48) as u32) as char
}

/// The decimal representation of a natural number, without leading zeros.
pub open spec fn decimal_nat(n: nat) -> Seq<char>
    decreases n,
{
    if n < 10 {
        seq![digit_char(n)]
    } else {
        decimal_nat(n / 10).push(digit_char(n % 10))
    }
}

/// The decimal representation of an integer, as `Display` writes it.
pub open spec fn decimal_int(v: int) -> Seq<char> {
    if v < 0 {
        seq!['-'] + decimal_nat((-v) as nat)
    } else {
        decimal_nat(v as nat)
    }
}

/// How `Display` writes a boolean.
pub open spec fn bool_text(b: bool) -> Seq<char> {
    if b {
        seq!['t', 'r', 'u', 'e']
    } else {
        seq!['f', 'a', 'l', 's', 'e']
    }
}

/// The view of each string in a list.
pub open spec fn texts(list: Seq<String>) -> Seq<Seq<char>> {
    list.map_values(|s: String| s@)
}

/// The view of each character vector in a list.
pub open spec fn views(list: Seq<Vec<char>>) -> Seq<Seq<char>> {
    list.map_values(|v: Vec<char>| v@)
}


/// The first index at or after `i` where `pat` occurs in `s`, or `-1`.
pub open spec fn find_from(s: Seq<char>, pat: Seq<char>, i: int) -> int
    decreases s.len() + 1 - i,
{
    if i < 0 || i + pat.len() > s.len() {
        -1
    } else if occurs_at(s, pat, i) {
        i
    } else {
        find_from(s, pat, i + 1)
    }
}

/// `s` with the first occurrence of `pat` replaced by `with`
/// (what `str::replacen(pat, with, 1)` gives).
pub open spec fn replace_first(s: Seq<char>, pat: Seq<char>, with: Seq<char>) -> Seq<char> {
    let i = find_from(s, pat, 0);
    if i < 0 {
        s
    } else {
        s.take(i) + with + s.skip(i + pat.len())
    }
}

/// Lexicographic order on texts, character by character
/// (the order of `String`'s `Ord`, since UTF-8 keeps code-point order).
pub open spec fn lex_le(a: Seq<char>, b: Seq<char>) -> bool
    decreases a.len(),
{
    if a.len() == 0 {
        true
    } else if b.len() == 0 {
        false
    } else if (a[0] as u32) < (b[0] as u32) {
        true
    } else if a[0] == b[0] {
        lex_le(a.drop_first(), b.drop_first())
    } else {
        false
    }
}

/// `x` inserted into `s` before the first entry that is not below it.
pub open spec fn insert_lex(s: Seq<Seq<char>>, x: Seq<char>) -> Seq<Seq<char>>
    decreases s.len(),
{
    if s.len() == 0 {
        seq![x]
    } else if lex_le(x, s[0]) {
        seq![x] + s
    } else {
        seq![s[0]] + insert_lex(s.drop_first(), x)
    }
}

/// `s` sorted in lexicographic order by insertion.
pub open spec fn sort_lex(s: Seq<Seq<char>>) -> Seq<Seq<char>>
    decreases s.len(),
{
    if s.len() == 0 {
        s
    } else {
        insert_lex(sort_lex(s.drop_last()), s.last())
    }
}

/// Every entry is lexicographically at most every later one.
pub open spec fn lex_sorted(s: Seq<Seq<char>>) -> bool {
    forall|i: int, j: int| 0 <= i <= j < s.len() ==> lex_le(#[trigger] s[i], #[trigger] s[j])
}

// ---------------------------------------------------------------------------
// Lemmas about the model
// ---------------------------------------------------------------------------


/// Lexicographic order is reflexive.
pub proof fn lemma_lex_refl(a: Seq<char>)
    ensures
        lex_le(a, a),
    decreases a.len(),
{
    if a.len() > 0 {
        lemma_lex_refl(a.drop_first());
    }
}

/// Lexicographic order is total.
pub proof fn lemma_lex_total(a: Seq<char>, b: Seq<char>)
    ensures
        lex_le(a, b) || lex_le(b, a),
    decreases a.len(),
{
    if a.len() > 0 && b.len() > 0 && a[0] == b[0] {
        lemma_lex_total(a.drop_first(), b.drop_first());
    } else if a.len() > 0 && b.len() > 0 {
        vstd::utf8::char_u32_cast(a[0], a[0] as u32);
        vstd::utf8::char_u32_cast(b[0], b[0] as u32);
    }
}

/// Lexicographic order is antisymmetric.
pub proof fn lemma_lex_antisym(a: Seq<char>, b: Seq<char>)
    requires
        lex_le(a, b),
        lex_le(b, a),
    ensures
        a == b,
    decreases a.len(),
{
    if a.len() > 0 && b.len() > 0 {
        lemma_lex_antisym(a.drop_first(), b.drop_first());
        assert(a =~= seq![a[0]] + a.drop_first());
        assert(b =~= seq![b[0]] + b.drop_first());
    } else {
        assert(a =~= b);
    }
}

/// Lexicographic order is transitive.
pub proof fn lemma_lex_trans(a: Seq<char>, b: Seq<char>, c: Seq<char>)
    requires
        lex_le(a, b),
        lex_le(b, c),
    ensures
        lex_le(a, c),
    decreases a.len(),
{
    if a.len() > 0 && b.len() > 0 && c.len() > 0 && a[0] == b[0] && b[0] == c[0] {
        lemma_lex_trans(a.drop_first(), b.drop_first(), c.drop_first());
    }
}

proof fn lemma_insert_lex_props(s: Seq<Seq<char>>, x: Seq<char>)
    ensures
        insert_lex(s, x).to_multiset() == s.to_multiset().insert(x),
        insert_lex(s, x).len() == s.len() + 1,
        lex_sorted(s) ==> lex_sorted(insert_lex(s, x)),
        forall|y: Seq<char>| #[trigger] insert_lex(s, x).contains(y) ==> y == x || s.contains(y),
    decreases s.len(),
{
    broadcast use vstd::seq_lib::group_seq_properties;
    broadcast use vstd::multiset::group_multiset_axioms;

    if s.len() == 0 {
        assert(seq![x].to_multiset() =~= Multiset::empty().insert(x)) by {
            assert(seq![x] =~= Seq::<Seq<char>>::empty().push(x));
        }
        lemma_lex_refl(x);
    } else if lex_le(x, s[0]) {
        assert(seq![x] + s =~= s.insert(0, x));
        if lex_sorted(s) {
            assert forall|i: int, j: int| 0 <= i <= j < s.len() + 1 implies lex_le(
                #[trigger] (seq![x] + s)[i],
                #[trigger] (seq![x] + s)[j],
            ) by {
                if i == 0 {
                    if j == 0 {
                        lemma_lex_refl(x);
                    } else {
                        assert((seq![x] + s)[j] == s[j - 1]);
                        lemma_lex_trans(x, s[0], s[j - 1]);
                    }
                } else {
                    assert((seq![x] + s)[i] == s[i - 1]);
                    assert((seq![x] + s)[j] == s[j - 1]);
                }
            }
        }
        assert forall|y: Seq<char>| #[trigger] (seq![x] + s).contains(y) implies y == x
            || s.contains(y) by {
            let k = choose|k: int| 0 <= k < (seq![x] + s).len() && (seq![x] + s)[k] == y;
            if k > 0 {
                assert(s[k - 1] == y);
            }
        }
    } else {
        let rest = s.drop_first();
        lemma_insert_lex_props(rest, x);
        let r = insert_lex(rest, x);
        assert(s =~= seq![s[0]] + rest);
        assert(seq![s[0]] + r =~= r.insert(0, s[0]));
        assert(s.to_multiset() == rest.to_multiset().insert(s[0])) by {
            assert(s =~= rest.insert(0, s[0]));
        }
        assert forall|y: Seq<char>| #[trigger] (seq![s[0]] + r).contains(y) implies y == x
            || s.contains(y) by {
            let k = choose|k: int| 0 <= k < (seq![s[0]] + r).len() && (seq![s[0]] + r)[k] == y;
            if k > 0 {
                assert(r[k - 1] == y);
                assert(r.contains(y));
                if y != x {
                    let m = choose|m: int| 0 <= m < rest.len() && rest[m] == y;
                    assert(s[m + 1] == y);
                }
            } else {
                assert(s[0] == y);
            }
        }
        if lex_sorted(s) {
            assert(lex_sorted(rest)) by {
                assert forall|i: int, j: int| 0 <= i <= j < rest.len() implies lex_le(
                    #[trigger] rest[i],
                    #[trigger] rest[j],
                ) by {
                    assert(rest[i] == s[i + 1] && rest[j] == s[j + 1]);
                }
            }
            lemma_lex_total(x, s[0]);
            assert forall|k: int| 0 <= k < r.len() implies lex_le(s[0], #[trigger] r[k]) by {
                assert(r.contains(r[k]));
                if r[k] != x {
                    let m = choose|m: int| 0 <= m < rest.len() && rest[m] == r[k];
                    assert(s[m + 1] == r[k]);
                }
            }
            assert forall|i: int, j: int| 0 <= i <= j < r.len() + 1 implies lex_le(
                #[trigger] (seq![s[0]] + r)[i],
                #[trigger] (seq![s[0]] + r)[j],
            ) by {
                if i == 0 {
                    if j == 0 {
                        lemma_lex_refl(s[0]);
                    } else {
                        assert((seq![s[0]] + r)[j] == r[j - 1]);
                    }
                } else {
                    assert((seq![s[0]] + r)[i] == r[i - 1]);
                    assert((seq![s[0]] + r)[j] == r[j - 1]);
                }
            }
        }
    }
}

/// Sorting keeps the entries (as a multiset) and orders them.
pub proof fn lemma_sort_lex_props(s: Seq<Seq<char>>)
    ensures
        sort_lex(s).to_multiset() == s.to_multiset(),
        sort_lex(s).len() == s.len(),
        lex_sorted(sort_lex(s)),
    decreases s.len(),
{
    broadcast use vstd::seq_lib::group_seq_properties;

    if s.len() > 0 {
        lemma_sort_lex_props(s.drop_last());
        lemma_insert_lex_props(sort_lex(s.drop_last()), s.last());
        assert(s =~= s.drop_last().push(s.last()));
    }
}

proof fn lemma_insert_lex_at(s: Seq<Seq<char>>, x: Seq<char>, p: int)
    requires
        0 <= p <= s.len(),
        forall|k: int| 0 <= k < p ==> !lex_le(x, #[trigger] s[k]),
        p < s.len() ==> lex_le(x, s[p]),
    ensures
        insert_lex(s, x) == s.take(p) + seq![x] + s.skip(p),
    decreases s.len(),
{
    if s.len() == 0 {
        assert(s.take(p) + seq![x] + s.skip(p) =~= seq![x]);
    } else if p == 0 {
        assert(s.take(0) + seq![x] + s.skip(0) =~= seq![x] + s);
    } else {
        let rest = s.drop_first();
        assert forall|k: int| 0 <= k < p - 1 implies !lex_le(x, #[trigger] rest[k]) by {
            assert(rest[k] == s[k + 1]);
        }
        lemma_insert_lex_at(rest, x, p - 1);
        assert(seq![s[0]] + (rest.take(p - 1) + seq![x] + rest.skip(p - 1)) =~= s.take(p)
            + seq![x] + s.skip(p));
    }
}

proof fn lemma_trim_start_skip(s: Seq<char>, i: int)
    requires
        0 <= i < s.len(),
        is_space(s[i]),
    ensures
        trim_start(s.skip(i)) == trim_start(s.skip(i + 1)),
{
    assert(s.skip(i).drop_first() =~= s.skip(i + 1));
}

proof fn lemma_trim_end_take(s: Seq<char>, j: int)
    requires
        0 < j <= s.len(),
        is_space(s[j - 1]),
    ensures
        trim_end(s.take(j)) == trim_end(s.take(j - 1)),
{
    assert(s.take(j).drop_last() =~= s.take(j - 1));
}

/// Trimming keeps a text whose ends are not whitespace.
pub proof fn lemma_trim_fixed(s: Seq<char>)
    requires
        s.len() > 0 ==> !is_space(s[0]) && !is_space(s.last()),
    ensures
        trim(s) == s,
{
}

/// A trimmed text neither starts nor ends with whitespace.
pub proof fn lemma_trim_ends(s: Seq<char>)
    ensures
        trim(s).len() > 0 ==> !is_space(trim(s)[0]) && !is_space(trim(s).last()),
        trim(trim(s)) == trim(s),
        trim(s).len() <= s.len(),
    decreases s.len(),
{
    lemma_trim_start_props(s);
    lemma_trim_end_props(trim_start(s));
}

proof fn lemma_trim_start_props(s: Seq<char>)
    ensures
        trim_start(s).len() > 0 ==> !is_space(trim_start(s)[0]),
        trim_start(s).len() <= s.len(),
        exists|k: int| 0 <= k <= s.len() && trim_start(s) == #[trigger] s.skip(k),
    decreases s.len(),
{
    if s.len() > 0 && is_space(s[0]) {
        lemma_trim_start_props(s.drop_first());
        let k = choose|k: int| 0 <= k <= s.drop_first().len() && trim_start(s.drop_first()) == #[trigger] s.drop_first().skip(k);
        assert(s.drop_first().skip(k) =~= s.skip(k + 1));
    } else {
        assert(s.skip(0) =~= s);
    }
}

proof fn lemma_trim_end_props(s: Seq<char>)
    ensures
        trim_end(s).len() > 0 ==> !is_space(trim_end(s).last()),
        trim_end(s).len() <= s.len(),
        exists|k: int| 0 <= k <= s.len() && trim_end(s) == #[trigger] s.take(k),
        trim_end(s).len() > 0 && s.len() > 0 && !is_space(s[0]) ==> !is_space(trim_end(s)[0]),
        trim_end(s).len() > 0 ==> trim_end(s)[0] == s[0],
    decreases s.len(),
{
    if s.len() > 0 && is_space(s.last()) {
        lemma_trim_end_props(s.drop_last());
        let k = choose|k: int| 0 <= k <= s.drop_last().len() && trim_end(s.drop_last()) == #[trigger] s.drop_last().take(k);
        assert(s.drop_last().take(k) =~= s.take(k));
    } else {
        assert(s.take(s.len() as int) =~= s);
    }
}

proof fn lemma_join_push(list: Seq<Seq<char>>, x: Seq<char>, sep: Seq<char>)
    ensures
        join(list.push(x), sep) == if list.len() == 0 {
            x
        } else {
            join(list, sep) + sep + x
        },
{
    assert(list.push(x).drop_last() =~= list);
}

pub proof fn lemma_trimmed_nonblank_push(list: Seq<Seq<char>>, x: Seq<char>)
    ensures
        trimmed_nonblank(list.push(x)) == if is_blank(x) {
            trimmed_nonblank(list)
        } else {
            trimmed_nonblank(list).push(trim(x))
        },
{
    assert(list.push(x).drop_last() =~= list);
}

/// The entries that are kept once trimmed are not empty.
pub proof fn lemma_trimmed_nonblank_nonempty(list: Seq<Seq<char>>)
    ensures
        forall|i: int|
            0 <= i < trimmed_nonblank(list).len() ==> (#[trigger] trimmed_nonblank(list)[i]).len()
                > 0,
    decreases list.len(),
{
    if list.len() > 0 {
        let rest = trimmed_nonblank(list.drop_last());
        lemma_trimmed_nonblank_nonempty(list.drop_last());
        assert forall|i: int| 0 <= i < trimmed_nonblank(list).len() implies (
        #[trigger] trimmed_nonblank(list)[i]).len() > 0 by {
            if i < rest.len() {
                assert(trimmed_nonblank(list)[i] == rest[i]);
            }
        }
    }
}

/// Trimming and dropping blank entries works piecewise on a concatenation.
pub proof fn lemma_trimmed_nonblank_concat(a: Seq<Seq<char>>, b: Seq<Seq<char>>)
    ensures
        trimmed_nonblank(a + b) == trimmed_nonblank(a) + trimmed_nonblank(b),
    decreases b.len(),
{
    if b.len() == 0 {
        assert(a + b =~= a);
        assert(trimmed_nonblank(a) + trimmed_nonblank(b) =~= trimmed_nonblank(a));
    } else {
        lemma_trimmed_nonblank_concat(a, b.drop_last());
        assert((a + b).drop_last() =~= a + b.drop_last());
        assert((a + b).last() == b.last());
        if is_blank(b.last()) {
        } else {
            assert(trimmed_nonblank(a) + trimmed_nonblank(b) =~= (trimmed_nonblank(a)
                + trimmed_nonblank(b.drop_last())).push(trim(b.last())));
        }
    }
}

/// A single entry is kept, trimmed, exactly when it is not blank.
pub proof fn lemma_trimmed_nonblank_single(x: Seq<char>)
    ensures
        trimmed_nonblank(seq![x]) == if is_blank(x) {
            Seq::<Seq<char>>::empty()
        } else {
            seq![trim(x)]
        },
        trimmed_nonblank(Seq::<Seq<char>>::empty()) == Seq::<Seq<char>>::empty(),
{
    assert(seq![x].drop_last() =~= Seq::<Seq<char>>::empty());
    assert(trimmed_nonblank(Seq::<Seq<char>>::empty()).len() == 0);
    assert(Seq::<Seq<char>>::empty().push(trim(x)) =~= seq![trim(x)]);
}

proof fn lemma_contains_survives_trim_start(s: Seq<char>, pat: Seq<char>)
    requires
        pat.len() > 0,
        !is_space(pat[0]),
        contains(s, pat),
    ensures
        contains(trim_start(s), pat),
    decreases s.len(),
{
    if s.len() > 0 && is_space(s[0]) {
        let o = choose|o: int| occurs_at(s, pat, o);
        assert(s.subrange(o, o + pat.len())[0] == s[o]);
        assert(o != 0);
        let t = s.drop_first();
        assert(t.subrange(o - 1, o - 1 + pat.len()) =~= s.subrange(o, o + pat.len()));
        assert(occurs_at(t, pat, o - 1));
        lemma_contains_survives_trim_start(t, pat);
    }
}

proof fn lemma_contains_survives_trim_end(s: Seq<char>, pat: Seq<char>)
    requires
        pat.len() > 0,
        !is_space(pat.last()),
        contains(s, pat),
    ensures
        contains(trim_end(s), pat),
    decreases s.len(),
{
    if s.len() > 0 && is_space(s.last()) {
        let o = choose|o: int| occurs_at(s, pat, o);
        assert(s.subrange(o, o + pat.len())[pat.len() - 1] == s[o + pat.len() - 1]);
        assert(o + pat.len() < s.len());
        let t = s.drop_last();
        assert(t.subrange(o, o + pat.len()) =~= s.subrange(o, o + pat.len()));
        assert(occurs_at(t, pat, o));
        lemma_contains_survives_trim_end(t, pat);
    }
}

/// A text that neither starts nor ends with whitespace and occurs in `s` also occurs in
/// `s` trimmed.
pub proof fn lemma_contains_survives_trim(s: Seq<char>, pat: Seq<char>)
    requires
        pat.len() > 0,
        !is_space(pat[0]),
        !is_space(pat.last()),
        contains(s, pat),
    ensures
        contains(trim(s), pat),
{
    lemma_contains_survives_trim_start(s, pat);
    lemma_contains_survives_trim_end(trim_start(s), pat);
}

/// What occurs in `s` trimmed occurs in `s`.
pub proof fn lemma_contains_within_trim(s: Seq<char>, pat: Seq<char>)
    ensures
        contains(trim(s), pat) ==> contains(s, pat),
{
    lemma_trim_start_props(s);
    lemma_trim_end_props(trim_start(s));
    if contains(trim(s), pat) {
        let k1 = choose|k: int| 0 <= k <= s.len() && trim_start(s) == #[trigger] s.skip(k);
        let k2 = choose|k: int|
            0 <= k <= trim_start(s).len() && trim_end(trim_start(s)) == #[trigger] trim_start(
                s,
            ).take(k);
        let o = choose|o: int| occurs_at(trim(s), pat, o);
        assert(s.subrange(k1 + o, k1 + o + pat.len()) =~= trim(s).subrange(o, o + pat.len()));
        assert(occurs_at(s, pat, k1 + o));
    }
}

/// Each part of a join occurs in it.
pub proof fn lemma_join_holds_parts(list: Seq<Seq<char>>, sep: Seq<char>)
    ensures
        forall|i: int| 0 <= i < list.len() ==> contains(join(list, sep), #[trigger] list[i]),
    decreases list.len(),
{
    if list.len() == 1 {
        assert(occurs_at(join(list, sep), list[0], 0)) by {
            assert(join(list, sep).subrange(0, list[0].len() as int) =~= list[0]);
        }
    } else if list.len() >= 2 {
        let init = list.drop_last();
        let j = join(list, sep);
        let ji = join(init, sep);
        lemma_join_holds_parts(init, sep);
        assert forall|i: int| 0 <= i < list.len() implies contains(j, #[trigger] list[i]) by {
            if i < init.len() {
                assert(list[i] == init[i]);
                let o = choose|o: int| occurs_at(ji, init[i], o);
                assert(j.subrange(o, o + list[i].len()) =~= ji.subrange(o, o + list[i].len()));
                assert(occurs_at(j, list[i], o));
            } else {
                let o = (ji.len() + sep.len()) as int;
                assert(j.subrange(o, o + list[i].len()) =~= list.last());
                assert(occurs_at(j, list[i], o));
            }
        }
    }
}

/// A text that occurs in the middle part of a concatenation occurs in the whole.
pub proof fn lemma_contains_in_middle(a: Seq<char>, x: Seq<char>, b: Seq<char>, pat: Seq<char>)
    requires
        contains(x, pat),
    ensures
        contains(a + x + b, pat),
{
    let o = choose|o: int| occurs_at(x, pat, o);
    let t = a + x + b;
    assert(t.subrange(a.len() + o, a.len() + o + pat.len()) =~= x.subrange(o, o + pat.len()));
    assert(occurs_at(t, pat, a.len() + o));
}

/// Equal texts that start with the same text go on equally.
pub proof fn lemma_cancel_prefix(p: Seq<char>, x: Seq<char>, y: Seq<char>)
    requires
        p + x == p + y,
    ensures
        x == y,
{
    assert(x =~= (p + x).skip(p.len() as int));
    assert(y =~= (p + y).skip(p.len() as int));
}

/// Two ways of writing a text as a part without `c` followed by a rest that starts with `c`
/// are the same way.
pub proof fn lemma_split_before_char(x: Seq<char>, y: Seq<char>, x2: Seq<char>, y2: Seq<char>, c: char)
    requires
        x + y == x2 + y2,
        !has_char(x, c),
        !has_char(x2, c),
        y.len() > 0 && y[0] == c,
        y2.len() > 0 && y2[0] == c,
    ensures
        x == x2,
        y == y2,
{
    let t = x + y;
    if x.len() < x2.len() {
        assert(t[x.len() as int] == c);
        assert((x2 + y2)[x.len() as int] == x2[x.len() as int]);
    }
    if x2.len() < x.len() {
        assert((x2 + y2)[x2.len() as int] == c);
        assert(t[x2.len() as int] == x[x2.len() as int]);
    }
    assert(x =~= t.take(x.len() as int));
    assert(x2 =~= (x2 + y2).take(x2.len() as int));
    assert(y =~= t.skip(x.len() as int));
    assert(y2 =~= (x2 + y2).skip(x2.len() as int));
}

/// A join of two or more parts ends with the separator and the last part.
proof fn lemma_join_last(l: Seq<Seq<char>>, sep: Seq<char>)
    requires
        l.len() > 0,
    ensures
        l.len() == 1 ==> join(l, sep) == l[0],
        l.len() >= 2 ==> join(l, sep) == join(l.drop_last(), sep) + sep + l.last(),
        join(l, sep).len() >= l.last().len(),
{
}

/// In a join with `\n`, `m`, `\n` between parts, when no part of the second join holds `m`
/// and `m` holds no line break, the last part of the first join is no shorter than the last
/// part of the second.
#[verifier::spinoff_prover]
#[verifier::rlimit(40)]
proof fn lemma_join_marked_last(a: Seq<Seq<char>>, b: Seq<Seq<char>>, m: Seq<char>)
    requires
        a.len() > 0,
        b.len() > 0,
        !has_char(m, '\n'),
        forall|i: int| 0 <= i < b.len() ==> !contains(#[trigger] b[i], m),
        join(a, seq!['\n'] + m + seq!['\n']) == join(b, seq!['\n'] + m + seq!['\n']),
    ensures
        a.last().len() >= b.last().len(),
{
    if a.last().len() < b.last().len() {
        let sep = seq!['\n'] + m + seq!['\n'];
        let t = join(a, sep);
        let n = t.len();
        let la = a.last();
        let lb = b.last();
        lemma_join_last(a, sep);
        lemma_join_last(b, sep);
        if a.len() == 1 {
            assert(n == la.len());
        } else {
            let ja = join(a.drop_last(), sep);
            let p = ja.len();
            assert(t == ja + sep + la);
            assert(n == p + m.len() + 2 + la.len());
            assert forall|k: int| 0 <= k < m.len() implies t[p + 1 + k] == m[k] by {
                assert(t[p + 1 + k] == (ja + sep)[p + 1 + k]);
                assert(sep[1 + k] == m[k]);
            }
            let q = p + 1 - (n - lb.len());
            if q >= 0 {
                if b.len() == 1 {
                    assert(t == lb);
                } else {
                    assert(t == join(b.drop_last(), sep) + sep + lb);
                }
                assert forall|k: int| 0 <= k < lb.len() implies lb[k] == t[n - lb.len() + k] by {
                    if b.len() >= 2 {
                        assert(t == join(b.drop_last(), sep) + sep + lb);
                    }
                }
                assert(lb.subrange(q, q + m.len()) =~= m);
                assert(occurs_at(lb, m, q));
                assert(contains(b[b.len() - 1], m));
            } else {
                assert(b.len() >= 2);
                let jb = join(b.drop_last(), sep);
                assert(t == jb + sep + lb);
                let r = n - lb.len() - 1;
                assert(t[r] == sep[sep.len() - 1]);
                assert(t[r] == '\n');
                assert(t[r] == m[r - p - 1]);
                assert(0 <= r - p - 1 < m.len());
            }
        }
    }
}

/// Parts that hold no `m` (a text without line breaks), joined with `\n`, `m`, `\n` between
/// them, can be told apart again: equal joins of non-empty such parts have equal parts.
pub proof fn lemma_join_marked_injective(a: Seq<Seq<char>>, b: Seq<Seq<char>>, m: Seq<char>)
    requires
        !has_char(m, '\n'),
        forall|i: int| 0 <= i < a.len() ==> (#[trigger] a[i]).len() > 0 && !contains(a[i], m),
        forall|i: int| 0 <= i < b.len() ==> (#[trigger] b[i]).len() > 0 && !contains(b[i], m),
        join(a, seq!['\n'] + m + seq!['\n']) == join(b, seq!['\n'] + m + seq!['\n']),
    ensures
        a == b,
    decreases a.len() + b.len(),
{
    let sep = seq!['\n'] + m + seq!['\n'];
    if a.len() == 0 || b.len() == 0 {
        if a.len() > 0 {
            lemma_join_last(a, sep);
            assert(a[a.len() - 1].len() > 0);
        }
        if b.len() > 0 {
            lemma_join_last(b, sep);
            assert(b[b.len() - 1].len() > 0);
        }
        assert(a =~= b);
    } else {
        let la = a.last();
        let lb = b.last();
        if la.len() < lb.len() {
            lemma_join_marked_last(a, b, m);
        }
        if lb.len() < la.len() {
            lemma_join_marked_last(b, a, m);
        }
        lemma_join_last(a, sep);
        lemma_join_last(b, sep);
        let t = join(a, sep);
        let n = t.len();
        assert(la =~= t.skip(n - la.len())) by {
            if a.len() >= 2 {
                assert(t == join(a.drop_last(), sep) + sep + la);
            }
        }
        assert(lb =~= t.skip(n - lb.len())) by {
            if b.len() >= 2 {
                assert(t == join(b.drop_last(), sep) + sep + lb);
            }
        }
        if a.len() == 1 && b.len() >= 2 {
            assert(t == join(b.drop_last(), sep) + sep + lb);
            assert(false);
        }
        if b.len() == 1 && a.len() >= 2 {
            assert(t == join(a.drop_last(), sep) + sep + la);
            assert(false);
        }
        if a.len() >= 2 {
            let ja = join(a.drop_last(), sep);
            let jb = join(b.drop_last(), sep);
            assert(ja =~= t.take(ja.len() as int));
            assert(jb =~= t.take(jb.len() as int));
            assert(ja == jb);
            lemma_join_marked_injective(a.drop_last(), b.drop_last(), m);
            assert(a =~= a.drop_last().push(la));
            assert(b =~= b.drop_last().push(lb));
        } else {
            assert(a =~= b);
        }
    }
}

// ---------------------------------------------------------------------------
// Executable text operations
// ---------------------------------------------------------------------------

/// Appends one character to a string (`String::push`).
#[verifier::external_body]
fn push_char(s: &mut String, c: char)
    ensures
        final(s)@ == old(s)@.push(c),
{
    s.push(c);
}

/// The characters of a string slice, in order.
pub fn chars_of(s: &str) -> (out: Vec<char>)
    ensures
        out@ == s@,
{
    broadcast use vstd::string::group_string_axioms;

    let mut out: Vec<char> = Vec::new();
    let mut it = s.chars();
    let ghost all = s@;
    loop
        invariant
            it.remaining() == all.skip(out@.len() as int),
            out@ == all.take(out@.len() as int),
            out@.len() <= all.len(),
            all == s@,
        ensures
            out@ == all,
        decreases all.len() - out@.len(),
    {
        let ghost before = it;
        match it.next() {
            Some(c) => {
                assert(it.remaining() == before.remaining().drop_first());
                out.push(c);
            },
            None => {
                assert(before.remaining().len() == 0);
                assert(out@ =~= all);
                break ;
            },
        }
    }
    out
}

/// A string made of the given characters.
pub fn string_of(cs: &[char]) -> (out: String)
    ensures
        out@ == cs@,
{
    let mut out = String::new();
    let mut i: usize = 0;
    while i < cs.len()
        invariant
            i <= cs@.len(),
            out@ == cs@.take(i as int),
        decreases cs@.len() - i,
    {
        push_char(&mut out, cs[i]);
        i = i + 1;
        assert(out@ =~= cs@.take(i as int));
    }
    assert(cs@.take(cs@.len() as int) =~= cs@);
    out
}

/// Strings made of each character vector, in order.
pub fn strings_of_views(v: &Vec<Vec<char>>) -> (out: Vec<String>)
    ensures
        texts(out@) == views(v@),
{
    let mut out: Vec<String> = Vec::new();
    let mut i: usize = 0;
    while i < v.len()
        invariant
            i <= v@.len(),
            out@.len() == i,
            texts(out@) == views(v@).take(i as int),
        decreases v@.len() - i,
    {
        let s = string_of(v[i].as_slice());
        let ghost prev = out@;
        out.push(s);
        proof {
            assert forall|k: int| 0 <= k < i + 1 implies texts(out@)[k] == views(v@).take(
                i + 1,
            )[k] by {
                if k < i {
                    assert(out@[k] == prev[k]);
                    assert(texts(prev)[k] == views(v@).take(i as int)[k]);
                }
            }
        }
        i = i + 1;
        assert(texts(out@) =~= views(v@).take(i as int));
    }
    assert(views(v@).take(v@.len() as int) =~= views(v@));
    out
}

/// The characters of each string in a list.
pub fn chars_of_all(list: &Vec<String>) -> (out: Vec<Vec<char>>)
    ensures
        views(out@) == texts(list@),
{
    let mut out: Vec<Vec<char>> = Vec::new();
    let mut i: usize = 0;
    while i < list.len()
        invariant
            i <= list@.len(),
            out@.len() == i,
            views(out@) == texts(list@).take(i as int),
        decreases list@.len() - i,
    {
        let cs = chars_of(list[i].as_str());
        let ghost prev = out@;
        out.push(cs);
        proof {
            assert forall|k: int| 0 <= k < i + 1 implies views(out@)[k] == texts(list@).take(
                i + 1,
            )[k] by {
                if k < i {
                    assert(out@[k] == prev[k]);
                    assert(views(prev)[k] == texts(list@).take(i as int)[k]);
                }
            }
        }
        i = i + 1;
        assert(views(out@) =~= texts(list@).take(i as int));
    }
    assert(texts(list@).take(list@.len() as int) =~= texts(list@));
    out
}

/// Whether a character is Unicode whitespace (`char::is_whitespace`).
pub fn char_is_space(c: char) -> (b: bool)
    ensures
        b == is_space(c),
{
    let u = c as u32;
    (0x9 <= u && u <= 0xd) || u == 0x20 || u == 0x85 || u == 0xa0 || u == 0x1680 || (0x2000 <= u
        && u <= 0x200a) || u == 0x2028 || u == 0x2029 || u == 0x202f || u == 0x205f || u == 0x3000
}

/// The index of the first non-whitespace character (or the length).
fn leading_space_end(s: &[char]) -> (i: usize)
    ensures
        i <= s@.len(),
        trim_start(s@) == s@.skip(i as int),
{
    let n = s.len();
    let mut i: usize = 0;
    assert(s@.skip(0) =~= s@);
    while i < n && char_is_space(s[i])
        invariant
            i <= n == s@.len(),
            trim_start(s@) == trim_start(s@.skip(i as int)),
        decreases n - i,
    {
        proof {
            lemma_trim_start_skip(s@, i as int);
        }
        i = i + 1;
    }
    i
}

/// The end of `s[i..]` once its trailing whitespace is dropped.
fn trailing_space_start(s: &[char], i: usize) -> (j: usize)
    requires
        i <= s@.len(),
    ensures
        i <= j <= s@.len(),
        trim_end(s@.skip(i as int)) == s@.subrange(i as int, j as int),
{
    let n = s.len();
    let ghost t = s@.skip(i as int);
    let mut j: usize = n;
    assert(t.take(t.len() as int) =~= t);
    while j > i && char_is_space(s[j - 1])
        invariant
            i <= j <= n == s@.len(),
            t == s@.skip(i as int),
            trim_end(t) == trim_end(t.take(j - i)),
        decreases j,
    {
        proof {
            lemma_trim_end_take(t, (j - i) as int);
        }
        j = j - 1;
    }
    assert(t.take(j - i) =~= s@.subrange(i as int, j as int));
    j
}

/// The characters `s[i..j]`.
pub fn sub_chars(s: &[char], i: usize, j: usize) -> (out: Vec<char>)
    requires
        i <= j <= s@.len(),
    ensures
        out@ == s@.subrange(i as int, j as int),
{
    let mut out: Vec<char> = Vec::new();
    let mut k: usize = i;
    while k < j
        invariant
            i <= k <= j <= s@.len(),
            out@ == s@.subrange(i as int, k as int),
        decreases j - k,
    {
        out.push(s[k]);
        k = k + 1;
        assert(out@ =~= s@.subrange(i as int, k as int));
    }
    out
}

/// The characters of `s` without leading and trailing whitespace.
pub fn trim_chars(s: &[char]) -> (out: Vec<char>)
    ensures
        out@ == trim(s@),
{
    let i = leading_space_end(s);
    let j = trailing_space_start(s, i);
    sub_chars(s, i, j)
}

/// The characters of `s` without leading and trailing whitespace.
pub fn trim_str(s: &str) -> (out: Vec<char>)
    ensures
        out@ == trim(s@),
{
    let cs = chars_of(s);
    trim_chars(cs.as_slice())
}

/// Whether `s` is blank once trimmed.
pub fn chars_blank(s: &[char]) -> (b: bool)
    ensures
        b == is_blank(s@),
{
    let t = trim_chars(s);
    t.len() == 0
}

/// Whether two character sequences are equal.
pub fn chars_eq(a: &[char], b: &[char]) -> (r: bool)
    ensures
        r == (a@ == b@),
{
    if a.len() != b.len() {
        return false;
    }
    let mut i: usize = 0;
    while i < a.len()
        invariant
            i <= a@.len() == b@.len(),
            forall|k: int| 0 <= k < i ==> a@[k] == b@[k],
        decreases a@.len() - i,
    {
        if a[i] != b[i] {
            return false;
        }
        i = i + 1;
    }
    assert(a@ =~= b@);
    true
}

/// Whether `pat` occurs in `s` at index `i`.
pub fn chars_occur_at(s: &[char], pat: &[char], i: usize) -> (r: bool)
    ensures
        r == occurs_at(s@, pat@, i as int),
{
    if i > s.len() || pat.len() > s.len() - i {
        return false;
    }
    let end = i + pat.len();
    let mut j: usize = i;
    while j < end
        invariant
            end == i + pat@.len() <= s@.len(),
            i <= j <= end,
            forall|m: int| 0 <= m < j - i ==> s@[i + m] == pat@[m],
        decreases end - j,
    {
        if s[j] != pat[j - i] {
            assert(s@.subrange(i as int, i + pat@.len())[j - i] != pat@[j - i]);
            return false;
        }
        j = j + 1;
    }
    assert(s@.subrange(i as int, i + pat@.len()) =~= pat@);
    true
}

/// Whether `pat` occurs somewhere in `s`.
pub fn chars_contain(s: &[char], pat: &[char]) -> (r: bool)
    ensures
        r == contains(s@, pat@),
{
    if pat.len() > s.len() {
        return false;
    }
    let last = s.len() - pat.len();
    let mut i: usize = 0;
    while i <= last
        invariant_except_break
            i <= last,
        invariant
            last == s@.len() - pat@.len(),
            forall|k: int| 0 <= k < i ==> !occurs_at(s@, pat@, k),
        ensures
            forall|k: int| 0 <= k <= last ==> !occurs_at(s@, pat@, k),
        decreases last + 1 - i,
    {
        if chars_occur_at(s, pat, i) {
            return true;
        }
        if i == last {
            break ;
        }
        i = i + 1;
    }
    assert forall|k: int| !#[trigger] occurs_at(s@, pat@, k) by {
        if 0 <= k <= last {
        }
    }
    false
}

/// Whether the character `c` occurs in `s`.
pub fn chars_have(s: &[char], c: char) -> (r: bool)
    ensures
        r == has_char(s@, c),
{
    let mut i: usize = 0;
    while i < s.len()
        invariant
            i <= s@.len(),
            forall|k: int| 0 <= k < i ==> s@[k] != c,
        decreases s@.len() - i,
    {
        if s[i] == c {
            return true;
        }
        i = i + 1;
    }
    false
}

/// Appends the characters of a string slice.
pub fn push_str(out: &mut Vec<char>, s: &str)
    ensures
        final(out)@ == old(out)@ + s@,
{
    let mut cs = chars_of(s);
    out.append(&mut cs);
}

/// Appends a sequence of characters.
pub fn push_chars(out: &mut Vec<char>, s: &[char])
    ensures
        final(out)@ == old(out)@ + s@,
{
    let mut i: usize = 0;
    let ghost start = out@;
    while i < s.len()
        invariant
            i <= s@.len(),
            out@ == start + s@.take(i as int),
        decreases s@.len() - i,
    {
        out.push(s[i]);
        i = i + 1;
        assert(out@ =~= start + s@.take(i as int));
    }
    assert(s@.take(s@.len() as int) =~= s@);
}

/// The parts of `list` joined with `sep`.
pub fn join_chars(list: &Vec<Vec<char>>, sep: &[char]) -> (out: Vec<char>)
    ensures
        out@ == join(views(list@), sep@),
{
    let ghost l = views(list@);
    let mut out: Vec<char> = Vec::new();
    let mut i: usize = 0;
    while i < list.len()
        invariant
            i <= list@.len(),
            l == views(list@),
            out@ == join(l.take(i as int), sep@),
        decreases list@.len() - i,
    {
        proof {
            lemma_join_push(l.take(i as int), l[i as int], sep@);
            assert(l.take(i as int).push(l[i as int]) =~= l.take(i + 1));
        }
        if i > 0 {
            push_chars(&mut out, sep);
        }
        push_chars(&mut out, list[i].as_slice());
        i = i + 1;
    }
    assert(l.take(list@.len() as int) =~= l);
    out
}

/// The trimmed non-blank entries of `list`, in order.
pub fn trimmed_nonblank_chars(list: &Vec<Vec<char>>) -> (out: Vec<Vec<char>>)
    ensures
        views(out@) == trimmed_nonblank(views(list@)),
{
    let ghost l = views(list@);
    let mut out: Vec<Vec<char>> = Vec::new();
    let mut i: usize = 0;
    while i < list.len()
        invariant
            i <= list@.len(),
            l == views(list@),
            views(out@) == trimmed_nonblank(l.take(i as int)),
        decreases list@.len() - i,
    {
        proof {
            lemma_trimmed_nonblank_push(l.take(i as int), l[i as int]);
            assert(l.take(i as int).push(l[i as int]) =~= l.take(i + 1));
        }
        let t = trim_chars(list[i].as_slice());
        if t.len() > 0 {
            out.push(t);
            assert(views(out@) =~= trimmed_nonblank(l.take(i + 1)));
        }
        i = i + 1;
    }
    assert(l.take(list@.len() as int) =~= l);
    out
}

/// The trimmed non-blank entries of a list of strings, joined with `sep`.
pub fn join_trimmed_nonblank(list: &Vec<String>, sep: &str) -> (out: Vec<char>)
    ensures
        out@ == join(trimmed_nonblank(texts(list@)), sep@),
{
    let all = chars_of_all(list);
    let kept = trimmed_nonblank_chars(&all);
    let sep_chars = chars_of(sep);
    join_chars(&kept, sep_chars.as_slice())
}

/// ASCII lower-casing (`str::to_ascii_lowercase`).
pub fn ascii_lowercase_chars(s: &[char]) -> (out: Vec<char>)
    ensures
        out@ == ascii_lowercase(s@),
{
    let mut out: Vec<char> = Vec::new();
    let mut i: usize = 0;
    while i < s.len()
        invariant
            i <= s@.len(),
            out@ == ascii_lowercase(s@.take(i as int)),
        decreases s@.len() - i,
    {
        let c = s[i];
        let l = if 'A' <= c && c <= 'Z' {
            ((c as u8) + 32) as char
        } else {
            c
        };
        assert(l == ascii_lower(c)) by {
            if 'A' <= c <= 'Z' {
                assert((c as u8) as u32 == c as u32);
            }
        }
        out.push(l);
        i = i + 1;
        assert(out@ =~= ascii_lowercase(s@.take(i as int)));
    }
    assert(s@.take(s@.len() as int) =~= s@);
    out
}

/// The decimal representation of `n`.
pub fn decimal_u64(n: u64) -> (out: Vec<char>)
    ensures
        out@ == decimal_nat(n as nat),
    decreases n,
{
    if n < 10 {
        let c = ((n as u8) + 48) as char;
        assert(c == digit_char(n as nat));
        let mut out: Vec<char> = Vec::new();
        out.push(c);
        assert(out@ =~= seq![digit_char(n as nat)]);
        out
    } else {
        let mut out = decimal_u64(n / 10);
        let d = n % 10;
        let c = ((d as u8) + 48) as char;
        assert(c == digit_char(d as nat));
        out.push(c);
        out
    }
}

/// The decimal representation of `v`, with a leading minus sign when negative.
pub fn decimal_i64(v: i64) -> (out: Vec<char>)
    ensures
        out@ == decimal_int(v as int),
{
    if v < 0 {
        let mag: u64 = if v == i64::MIN {
            9223372036854775808u64
        } else {
            (-v) as u64
        };
        let mut out: Vec<char> = Vec::new();
        out.push('-');
        let mut digits = decimal_u64(mag);
        out.append(&mut digits);
        assert(out@ =~= seq!['-'] + decimal_nat((-(v as int)) as nat));
        out
    } else {
        decimal_u64(v as u64)
    }
}


/// `s` with the first occurrence of `pat` replaced by `with`.
pub fn replace_first_chars(s: &[char], pat: &[char], with: &[char]) -> (out: Vec<char>)
    ensures
        out@ == replace_first(s@, pat@, with@),
{
    let mut i: usize = 0;
    loop
        invariant
            find_from(s@, pat@, 0) == find_from(s@, pat@, i as int),
            i <= s@.len() + 1,
        decreases s@.len() + 1 - i,
    {
        if pat.len() > s.len() || i > s.len() - pat.len() {
            let mut out: Vec<char> = Vec::new();
            push_chars(&mut out, s);
            assert(out@ =~= s@);
            return out;
        }
        if chars_occur_at(s, pat, i) {
            let mut out = sub_chars(s, 0, i);
            push_chars(&mut out, with);
            let tail = sub_chars(s, i + pat.len(), s.len());
            push_chars(&mut out, tail.as_slice());
            assert(s@.subrange(0, i as int) =~= s@.take(i as int));
            assert(s@.subrange(i + pat@.len(), s@.len() as int) =~= s@.skip(i + pat@.len()));
            return out;
        }
        if i == s.len() {
            assert(find_from(s@, pat@, i + 1) == -1);
            let mut out: Vec<char> = Vec::new();
            push_chars(&mut out, s);
            assert(out@ =~= s@);
            return out;
        }
        i = i + 1;
    }
}

/// Whether `a` is lexicographically at most `b`.
pub fn chars_lex_le(a: &[char], b: &[char]) -> (r: bool)
    ensures
        r == lex_le(a@, b@),
{
    let mut i: usize = 0;
    assert(a@.skip(0) =~= a@);
    assert(b@.skip(0) =~= b@);
    while i < a.len() && i < b.len() && a[i] == b[i]
        invariant
            i <= a@.len(),
            i <= b@.len(),
            lex_le(a@, b@) == lex_le(a@.skip(i as int), b@.skip(i as int)),
        decreases a@.len() - i,
    {
        proof {
            assert(a@.skip(i as int).drop_first() =~= a@.skip(i + 1));
            assert(b@.skip(i as int).drop_first() =~= b@.skip(i + 1));
        }
        i = i + 1;
    }
    if i == a.len() {
        true
    } else if i == b.len() {
        false
    } else {
        (a[i] as u32) < (b[i] as u32)
    }
}

/// The entries of `v` in lexicographic order (insertion sort).
pub fn sort_lex_chars(v: Vec<Vec<char>>) -> (out: Vec<Vec<char>>)
    ensures
        views(out@) == sort_lex(views(v@)),
{
    let ghost vv = views(v@);
    let mut out: Vec<Vec<char>> = Vec::new();
    let mut rest = v;
    let mut taken: usize = 0;
    let n = rest.len();
    let mut src: Vec<Vec<char>> = Vec::new();
    // Move the entries into `src` in reverse so that popping yields them in order.
    while rest.len() > 0
        invariant
            rest@.len() + src@.len() == n,
            vv.len() == n,
            views(rest@) == vv.take(rest@.len() as int),
            forall|k: int| 0 <= k < src@.len() ==> #[trigger] src@[k]@ == vv[n - 1 - k],
        decreases rest@.len(),
    {
        let ghost old_rest = rest@;
        let x = rest.pop().unwrap();
        proof {
            assert(views(old_rest)[rest@.len() as int] == old_rest[rest@.len() as int]@);
            assert(x@ == vv[rest@.len() as int]);
        }
        src.push(x);
        assert(views(rest@) =~= vv.take(rest@.len() as int));
    }
    assert(vv.take(0) =~= Seq::<Seq<char>>::empty());
    assert(views(out@) =~= sort_lex(vv.take(0)));
    while src.len() > 0
        invariant
            taken + src@.len() == n,
            vv.len() == n,
            forall|k: int| 0 <= k < src@.len() ==> #[trigger] src@[k]@ == vv[n - 1 - k],
            views(out@) == sort_lex(vv.take(taken as int)),
        decreases src@.len(),
    {
        let x = src.pop().unwrap();
        let ghost before = views(out@);
        let mut p: usize = 0;
        while p < out.len() && !chars_lex_le(x.as_slice(), out[p].as_slice())
            invariant
                p <= out@.len(),
                before == views(out@),
                forall|k: int| 0 <= k < p ==> !lex_le(x@, #[trigger] before[k]),
            decreases out@.len() - p,
        {
            p = p + 1;
        }
        proof {
            lemma_insert_lex_at(before, x@, p as int);
            assert(vv.take(taken + 1).drop_last() =~= vv.take(taken as int));
            assert(x@ == vv[taken as int]);
        }
        out.insert(p, x);
        taken = taken + 1;
        assert(views(out@) =~= before.take(p as int) + seq![vv[taken - 1]] + before.skip(p as int));
    }
    assert(vv.take(n as int) =~= vv);
    out
}

/// How `Display` writes a boolean.
pub fn bool_chars(b: bool) -> (out: Vec<char>)
    ensures
        out@ == bool_text(b),
{
    let out = if b {
        vec!['t', 'r', 'u', 'e']
    } else {
        vec!['f', 'a', 'l', 's', 'e']
    };
    assert(out@ =~= bool_text(b));
    out
}

} // verus!
