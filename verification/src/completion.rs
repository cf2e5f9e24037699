//! Tab completion: the candidate suffixes of the current buffer among the
//! builtin and catalog names, deduplicated and sorted lexicographically, and
//! their longest common prefix.

use vstd::prelude::*;
use crate::builtin::Builtin;
use crate::text::str_eq;

verus! {

/// Lexicographic order on character sequences, by code point.
pub open spec fn lex_le(a: Seq<char>, b: Seq<char>) -> bool
    decreases a.len(),
{
    if a.len() == 0 {
        true
    } else if b.len() == 0 {
        false
    } else if (a[0] as u32) < (b[0] as u32) {
        true
    } else if (a[0] as u32) > (b[0] as u32) {
        false
    } else {
        lex_le(a.skip(1), b.skip(1))
    }
}

/// Strict lexicographic order.
pub open spec fn lex_lt(a: Seq<char>, b: Seq<char>) -> bool {
    lex_le(a, b) && a != b
}

/// Lexicographic comparison of two strings.
pub fn str_lex_le(a: &str, b: &str) -> (r: bool)
    ensures
        r == lex_le(a@, b@),
{
    let na = a.unicode_len();
    let nb = b.unicode_len();
    let mut i: usize = 0;
    proof {
        assert(a@.skip(0) =~= a@);
        assert(b@.skip(0) =~= b@);
    }
    while i < na && i < nb
        invariant
            i <= na,
            i <= nb,
            na == a@.len(),
            nb == b@.len(),
            lex_le(a@, b@) == lex_le(a@.skip(i as int), b@.skip(i as int)),
        decreases na - i,
    {
        proof {
            assert(a@.skip(i as int)[0] == a@[i as int]);
            assert(b@.skip(i as int)[0] == b@[i as int]);
            assert(a@.skip(i as int).skip(1) =~= a@.skip(i as int + 1));
            assert(b@.skip(i as int).skip(1) =~= b@.skip(i as int + 1));
        }
        let ca = a.get_char(i) as u32;
        let cb = b.get_char(i) as u32;
        if ca < cb {
            return true;
        }
        if ca > cb {
            return false;
        }
        i += 1;
    }
    proof {
        if i == na {
            assert(a@.skip(i as int).len() == 0);
        } else {
            assert(b@.skip(i as int).len() == 0);
            assert(a@.skip(i as int).len() > 0);
        }
    }
    na <= nb
}

/// One word placed into a sorted, duplicate-free list: it lands before the
/// first entry not below it, unless that entry is the word itself.
pub open spec fn sorted_insert(vs: Seq<Seq<char>>, x: Seq<char>) -> Seq<Seq<char>>
    decreases vs.len(),
{
    if vs.len() == 0 {
        seq![x]
    } else if lex_lt(vs[0], x) {
        seq![vs[0]] + sorted_insert(vs.skip(1), x)
    } else if vs[0] == x {
        vs
    } else {
        seq![x] + vs
    }
}

/// Where the scan stopped determines the inserted list's shape.
proof fn lemma_sorted_insert_at(vs: Seq<Seq<char>>, x: Seq<char>, i: int)
    requires
        0 <= i <= vs.len(),
        forall|k: int| 0 <= k < i ==> lex_lt(#[trigger] vs[k], x),
        i < vs.len() ==> !lex_lt(vs[i], x),
    ensures
        sorted_insert(vs, x) == if i < vs.len() && vs[i] == x {
            vs
        } else {
            vs.take(i) + seq![x] + vs.skip(i)
        },
    decreases i,
{
    if i == 0 {
        if vs.len() == 0 {
            assert(vs.take(0) + seq![x] + vs.skip(0) =~= seq![x]);
        } else if vs[0] == x {
            assert(!lex_lt(vs[0], x));
        } else {
            assert(vs.take(0) + seq![x] + vs.skip(0) =~= seq![x] + vs);
        }
    } else {
        assert(lex_lt(vs[0], x));
        assert(forall|k: int| 0 <= k < i - 1 ==> lex_lt(#[trigger] vs.skip(1)[k], x)) by {
            assert(forall|k: int| 0 <= k < vs.skip(1).len() ==> vs.skip(1)[k] == vs[k + 1]);
        }
        assert(i - 1 < vs.skip(1).len() ==> !lex_lt(vs.skip(1)[i - 1], x)) by {
            if i - 1 < vs.skip(1).len() {
                assert(vs.skip(1)[i - 1] == vs[i]);
            }
        }
        lemma_sorted_insert_at(vs.skip(1), x, i - 1);
        if i < vs.len() && vs[i] == x {
            assert(vs.skip(1)[i - 1] == vs[i]);
            assert(seq![vs[0]] + vs.skip(1) =~= vs);
        } else {
            assert(seq![vs[0]] + (vs.skip(1).take(i - 1) + seq![x] + vs.skip(1).skip(i - 1))
                =~= vs.take(i) + seq![x] + vs.skip(i));
        }
    }
}

/// Places the word into the sorted, duplicate-free list.
fn insert_sorted(v: &mut Vec<String>, x: String)
    ensures
        final(v).deep_view() == sorted_insert(old(v).deep_view(), x@),
{
    let ghost vs = v.deep_view();
    let mut i: usize = 0;
    let mut stop = false;
    while !stop
        invariant
            i <= v.len(),
            vs == v.deep_view(),
            forall|k: int| 0 <= k < i ==> lex_lt(#[trigger] vs[k], x@),
            stop ==> (i == v.len() || !lex_lt(vs[i as int], x@)),
        decreases v.len() - i, (if stop {
            0int
        } else {
            1int
        }),
    {
        if i < v.len() {
            let le = str_lex_le(v[i].as_str(), x.as_str());
            let eq = str_eq(v[i].as_str(), x.as_str());
            if le && !eq {
                i += 1;
            } else {
                stop = true;
            }
        } else {
            stop = true;
        }
    }
    proof {
        lemma_sorted_insert_at(vs, x@, i as int);
    }
    let mut duplicate = false;
    if i < v.len() {
        duplicate = str_eq(v[i].as_str(), x.as_str());
    }
    if !duplicate {
        v.insert(i, x);
        proof {
            assert(v.deep_view() =~= vs.take(i as int) + seq![x@] + vs.skip(i as int));
        }
    }
}

/// A prefix relation on character sequences.
pub open spec fn is_prefix_of(p: Seq<char>, s: Seq<char>) -> bool {
    p.len() <= s.len() && s.take(p.len() as int) == p
}

/// Whether the buffer prefixes the name.
fn buffer_prefixes(buf: &Vec<char>, s: &str) -> (r: bool)
    ensures
        r == is_prefix_of(buf@, s@),
{
    let n = s.unicode_len();
    if buf.len() > n {
        return false;
    }
    let mut i: usize = 0;
    while i < buf.len()
        invariant
            i <= buf@.len() <= s@.len(),
            n == s@.len(),
            forall|j: int| 0 <= j < i ==> buf@[j] == s@[j],
        decreases buf.len() - i,
    {
        if buf[i] != s.get_char(i) {
            proof {
                assert(s@.take(buf@.len() as int)[i as int] == s@[i as int]);
            }
            return false;
        }
        i += 1;
    }
    proof {
        assert(s@.take(buf@.len() as int) =~= buf@);
    }
    true
}

/// The walk over the names: each name the buffer prefixes contributes what
/// follows the prefix, placed into the sorted, duplicate-free list.
pub open spec fn candidates_rec(
    names: Seq<Seq<char>>,
    buf: Seq<char>,
    acc: Seq<Seq<char>>,
) -> Seq<Seq<char>>
    decreases names.len(),
{
    if names.len() == 0 {
        acc
    } else {
        let acc2 = if is_prefix_of(buf, names[0]) {
            sorted_insert(acc, names[0].skip(buf.len() as int))
        } else {
            acc
        };
        candidates_rec(names.skip(1), buf, acc2)
    }
}

/// The builtin names in their fixed order.
pub open spec fn builtin_names() -> Seq<Seq<char>> {
    seq!["exit"@, "type"@, "echo"@, "pwd"@, "cd"@, "history"@]
}

/// The completion candidates of a buffer: the suffixes, after the buffer, of
/// every builtin and catalog name the buffer prefixes, without duplicates,
/// in lexicographic order.
pub open spec fn candidates_spec(names: Seq<Seq<char>>, buf: Seq<char>) -> Seq<Seq<char>> {
    candidates_rec(builtin_names() + names, buf, Seq::empty())
}

/// Collects, deduplicates and sorts the completion candidates of the buffer
/// among the builtin names and the catalog names.
pub fn completion_candidates(buf: &Vec<char>, names: &Vec<String>) -> (r: Vec<String>)
    ensures
        r.deep_view() == candidates_spec(names.deep_view(), buf@),
{
    let mut all = Builtin::all_names();
    let mut k: usize = 0;
    proof {
        assert(all.deep_view() =~= builtin_names() + names.deep_view().take(0));
    }
    while k < names.len()
        invariant
            k <= names.len(),
            all.deep_view() == builtin_names() + names.deep_view().take(k as int),
        decreases names.len() - k,
    {
        let ghost prev = all.deep_view();
        all.push(names[k].clone());
        proof {
            assert(all.deep_view() =~= prev.push(names.deep_view()[k as int]));
            assert(prev.push(names.deep_view()[k as int]) =~= builtin_names()
                + names.deep_view().take(k as int + 1));
        }
        k += 1;
    }
    proof {
        assert(names.deep_view().take(names.len() as int) =~= names.deep_view());
    }
    let ghost allv = all.deep_view();

    let mut out: Vec<String> = Vec::new();
    let mut i: usize = 0;
    proof {
        assert(allv.skip(0) =~= allv);
        assert(out.deep_view() =~= Seq::<Seq<char>>::empty());
    }
    while i < all.len()
        invariant
            i <= all.len(),
            allv == all.deep_view(),
            candidates_rec(allv.skip(i as int), buf@, out.deep_view()) == candidates_rec(
                allv,
                buf@,
                Seq::empty(),
            ),
        decreases all.len() - i,
    {
        proof {
            assert(allv.skip(i as int)[0] == allv[i as int]);
            assert(allv.skip(i as int).skip(1) =~= allv.skip(i as int + 1));
        }
        let name = &all[i];
        if buffer_prefixes(buf, name.as_str()) {
            let suffix = name.as_str().substring_char(buf.len(), name.as_str().unicode_len());
            let suffix = String::from_str(suffix);
            proof {
                assert(suffix@ =~= allv[i as int].skip(buf@.len() as int));
            }
            insert_sorted(&mut out, suffix);
        }
        i += 1;
    }
    proof {
        assert(allv.skip(all.len() as int) =~= Seq::<Seq<char>>::empty());
    }
    out
}

/// The order is total.
proof fn lemma_lex_le_total(a: Seq<char>, b: Seq<char>)
    ensures
        lex_le(a, b) || lex_le(b, a),
    decreases a.len(),
{
    if a.len() > 0 && b.len() > 0 && (a[0] as u32) == (b[0] as u32) {
        lemma_lex_le_total(a.skip(1), b.skip(1));
    }
}

/// Two characters with the same code point are the same character.
proof fn lemma_char_code_injective(c: char, d: char)
    requires
        c as u32 == d as u32,
    ensures
        c == d,
{
}

/// The order is antisymmetric.
proof fn lemma_lex_le_antisym(a: Seq<char>, b: Seq<char>)
    requires
        lex_le(a, b),
        lex_le(b, a),
    ensures
        a == b,
    decreases a.len(),
{
    if a.len() == 0 {
        assert(b.len() == 0);
        assert(a =~= b);
    } else {
        assert(b.len() > 0);
        assert((a[0] as u32) == (b[0] as u32));
        lemma_char_code_injective(a[0], b[0]);
        lemma_lex_le_antisym(a.skip(1), b.skip(1));
        assert(a =~= b) by {
            assert(forall|m: int| 1 <= m < a.len() ==> a[m] == a.skip(1)[m - 1]);
            assert(forall|m: int| 1 <= m < b.len() ==> b[m] == b.skip(1)[m - 1]);
        }
    }
}

/// The order is transitive.
proof fn lemma_lex_le_trans(a: Seq<char>, b: Seq<char>, c: Seq<char>)
    requires
        lex_le(a, b),
        lex_le(b, c),
    ensures
        lex_le(a, c),
    decreases a.len(),
{
    if a.len() > 0 {
        assert(b.len() > 0);
        assert(c.len() > 0);
        if (a[0] as u32) == (b[0] as u32) && (b[0] as u32) == (c[0] as u32) {
            lemma_lex_le_trans(a.skip(1), b.skip(1), c.skip(1));
        }
    }
}

/// The strict order is transitive.
proof fn lemma_lex_lt_trans(a: Seq<char>, b: Seq<char>, c: Seq<char>)
    requires
        lex_lt(a, b),
        lex_lt(b, c),
    ensures
        lex_lt(a, c),
{
    lemma_lex_le_trans(a, b, c);
    if a == c {
        lemma_lex_le_antisym(a, b);
    }
}

/// Strictly increasing from left to right: sorted and free of duplicates.
pub open spec fn strictly_sorted(vs: Seq<Seq<char>>) -> bool {
    forall|i: int, j: int| 0 <= i < j < vs.len() ==> lex_lt(#[trigger] vs[i], #[trigger] vs[j])
}

/// Everything in an inserted list is the new word or was already there.
proof fn lemma_sorted_insert_elems(vs: Seq<Seq<char>>, x: Seq<char>, k: int)
    requires
        0 <= k < sorted_insert(vs, x).len(),
    ensures
        sorted_insert(vs, x)[k] == x || vs.contains(sorted_insert(vs, x)[k]),
    decreases vs.len(),
{
    if vs.len() == 0 {
    } else if lex_lt(vs[0], x) {
        if k > 0 {
            lemma_sorted_insert_elems(vs.skip(1), x, k - 1);
            let e = sorted_insert(vs, x)[k];
            if e != x {
                let j = choose|j: int| 0 <= j < vs.skip(1).len() && vs.skip(1)[j] == e;
                assert(vs[j + 1] == e);
            }
        } else {
            assert(vs[0] == sorted_insert(vs, x)[0]);
        }
    } else if vs[0] == x {
        assert(vs.contains(vs[k]));
    } else {
        if k > 0 {
            assert(vs.contains(vs[k - 1]));
        }
    }
}

/// Insertion keeps the list strictly sorted.
proof fn lemma_sorted_insert_sorted(vs: Seq<Seq<char>>, x: Seq<char>)
    requires
        strictly_sorted(vs),
    ensures
        strictly_sorted(sorted_insert(vs, x)),
    decreases vs.len(),
{
    if vs.len() == 0 {
    } else if lex_lt(vs[0], x) {
        assert(strictly_sorted(vs.skip(1))) by {
            assert(forall|i: int| 0 <= i < vs.skip(1).len() ==> vs.skip(1)[i] == vs[i + 1]);
        }
        lemma_sorted_insert_sorted(vs.skip(1), x);
        let r = sorted_insert(vs, x);
        let tail = sorted_insert(vs.skip(1), x);
        assert(forall|k: int| 1 <= k < r.len() ==> r[k] == tail[k - 1]);
        assert forall|j: int| 1 <= j < r.len() implies lex_lt(r[0], r[j]) by {
            lemma_sorted_insert_elems(vs.skip(1), x, j - 1);
            if tail[j - 1] != x {
                let m = choose|m: int|
                    0 <= m < vs.skip(1).len() && vs.skip(1)[m] == tail[j - 1];
                assert(vs[m + 1] == tail[j - 1]);
                assert(lex_lt(vs[0], vs[m + 1]));
            }
        }
        assert(strictly_sorted(r)) by {
            assert(forall|i: int, j: int|
                1 <= i < j < r.len() ==> lex_lt(#[trigger] r[i], #[trigger] r[j]));
        }
    } else if vs[0] == x {
    } else {
        let r = seq![x] + vs;
        assert(lex_lt(x, vs[0])) by {
            lemma_lex_le_total(vs[0], x);
        }
        assert forall|j: int| 1 <= j < r.len() implies lex_lt(r[0], r[j]) by {
            assert(r[j] == vs[j - 1]);
            if j > 1 {
                lemma_lex_lt_trans(x, vs[0], vs[j - 1]);
            }
        }
        assert(strictly_sorted(r)) by {
            assert(forall|i: int, j: int|
                1 <= i < j < r.len() ==> lex_lt(#[trigger] r[i], #[trigger] r[j]));
        }
    }
}

/// The walk keeps its accumulator strictly sorted.
proof fn lemma_candidates_rec_sorted(names: Seq<Seq<char>>, buf: Seq<char>, acc: Seq<Seq<char>>)
    requires
        strictly_sorted(acc),
    ensures
        strictly_sorted(candidates_rec(names, buf, acc)),
    decreases names.len(),
{
    if names.len() > 0 {
        if is_prefix_of(buf, names[0]) {
            lemma_sorted_insert_sorted(acc, names[0].skip(buf.len() as int));
            lemma_candidates_rec_sorted(
                names.skip(1),
                buf,
                sorted_insert(acc, names[0].skip(buf.len() as int)),
            );
        } else {
            lemma_candidates_rec_sorted(names.skip(1), buf, acc);
        }
    }
}

/// The completion candidates come out strictly sorted: in lexicographic
/// order and free of duplicates.
pub proof fn lemma_candidates_sorted(names: Seq<Seq<char>>, buf: Seq<char>)
    ensures
        strictly_sorted(candidates_spec(names, buf)),
{
    lemma_candidates_rec_sorted(builtin_names() + names, buf, Seq::empty());
}

/// Whether `e` is the suffix, after the buffer, of some name the buffer
/// prefixes.
pub open spec fn is_candidate(names: Seq<Seq<char>>, buf: Seq<char>, e: Seq<char>) -> bool {
    exists|k: int|
        0 <= k < names.len() && is_prefix_of(buf, #[trigger] names[k]) && e == names[k].skip(
            buf.len() as int,
        )
}

/// Insertion adds the new word to the list's elements and nothing else.
proof fn lemma_sorted_insert_contains(vs: Seq<Seq<char>>, x: Seq<char>, e: Seq<char>)
    ensures
        sorted_insert(vs, x).contains(e) <==> (vs.contains(e) || e == x),
    decreases vs.len(),
{
    let r = sorted_insert(vs, x);
    if vs.len() == 0 {
        assert(r[0] == x);
        if r.contains(e) {
            let i = choose|i: int| 0 <= i < r.len() && r[i] == e;
            assert(e == x);
        }
    } else if lex_lt(vs[0], x) {
        lemma_sorted_insert_contains(vs.skip(1), x, e);
        let tail = sorted_insert(vs.skip(1), x);
        assert(r == seq![vs[0]] + tail);
        if r.contains(e) {
            let i = choose|i: int| 0 <= i < r.len() && r[i] == e;
            if i == 0 {
                assert(vs[0] == e);
                assert(vs.contains(e));
            } else {
                assert(tail[i - 1] == e);
                assert(tail.contains(e));
                if vs.skip(1).contains(e) {
                    let j = choose|j: int| 0 <= j < vs.skip(1).len() && vs.skip(1)[j] == e;
                    assert(vs[j + 1] == e);
                    assert(vs.contains(e));
                }
            }
        }
        if vs.contains(e) {
            let i = choose|i: int| 0 <= i < vs.len() && vs[i] == e;
            if i == 0 {
                assert(r[0] == e);
            } else {
                assert(vs.skip(1)[i - 1] == e);
                assert(vs.skip(1).contains(e));
                let j = choose|j: int| 0 <= j < tail.len() && tail[j] == e;
                assert(r[j + 1] == e);
            }
            assert(r.contains(e));
        }
        if e == x {
            let j = choose|j: int| 0 <= j < tail.len() && tail[j] == e;
            assert(r[j + 1] == e);
            assert(r.contains(e));
        }
    } else if vs[0] == x {
        if e == x {
            assert(r[0] == e);
            assert(r.contains(e));
        }
    } else {
        assert(r == seq![x] + vs);
        assert(r[0] == x);
        if r.contains(e) {
            let i = choose|i: int| 0 <= i < r.len() && r[i] == e;
            if i > 0 {
                assert(vs[i - 1] == e);
                assert(vs.contains(e));
            }
        }
        if vs.contains(e) {
            let i = choose|i: int| 0 <= i < vs.len() && vs[i] == e;
            assert(r[i + 1] == e);
            assert(r.contains(e));
        }
        if e == x {
            assert(r.contains(e));
        }
    }
}

/// The walk's result holds the accumulator's elements together with the
/// suffixes of exactly the names the buffer prefixes.
proof fn lemma_candidates_rec_elems(
    names: Seq<Seq<char>>,
    buf: Seq<char>,
    acc: Seq<Seq<char>>,
    e: Seq<char>,
)
    ensures
        candidates_rec(names, buf, acc).contains(e) <==> (acc.contains(e) || is_candidate(
            names,
            buf,
            e,
        )),
    decreases names.len(),
{
    if names.len() == 0 {
        assert(!is_candidate(names, buf, e));
    } else {
        assert(forall|k: int| 0 <= k < names.skip(1).len() ==> names.skip(1)[k] == names[k + 1]);
        if is_prefix_of(buf, names[0]) {
            let acc2 = sorted_insert(acc, names[0].skip(buf.len() as int));
            lemma_sorted_insert_contains(acc, names[0].skip(buf.len() as int), e);
            lemma_candidates_rec_elems(names.skip(1), buf, acc2, e);
            if candidates_rec(names, buf, acc).contains(e) {
                if !acc.contains(e) && e != names[0].skip(buf.len() as int) {
                    assert(is_candidate(names.skip(1), buf, e));
                    let k = choose|k: int|
                        0 <= k < names.skip(1).len() && is_prefix_of(buf, #[trigger] names.skip(
                            1,
                        )[k]) && e == names.skip(1)[k].skip(buf.len() as int);
                    assert(is_prefix_of(buf, names[k + 1]) && e == names[k + 1].skip(
                        buf.len() as int,
                    ));
                }
            }
            if is_candidate(names, buf, e) && !acc.contains(e) {
                let k = choose|k: int|
                    0 <= k < names.len() && is_prefix_of(buf, #[trigger] names[k]) && e
                        == names[k].skip(buf.len() as int);
                if k == 0 {
                    assert(acc2.contains(e));
                } else {
                    assert(is_prefix_of(buf, names.skip(1)[k - 1]) && e == names.skip(1)[k
                        - 1].skip(buf.len() as int));
                    assert(is_candidate(names.skip(1), buf, e));
                }
            }
        } else {
            lemma_candidates_rec_elems(names.skip(1), buf, acc, e);
            if is_candidate(names, buf, e) {
                let k = choose|k: int|
                    0 <= k < names.len() && is_prefix_of(buf, #[trigger] names[k]) && e
                        == names[k].skip(buf.len() as int);
                assert(k != 0);
                assert(is_prefix_of(buf, names.skip(1)[k - 1]) && e == names.skip(1)[k - 1].skip(
                    buf.len() as int,
                ));
                assert(is_candidate(names.skip(1), buf, e));
            }
            if is_candidate(names.skip(1), buf, e) {
                let k = choose|k: int|
                    0 <= k < names.skip(1).len() && is_prefix_of(buf, #[trigger] names.skip(
                        1,
                    )[k]) && e == names.skip(1)[k].skip(buf.len() as int);
                assert(is_prefix_of(buf, names[k + 1]) && e == names[k + 1].skip(
                    buf.len() as int,
                ));
            }
        }
    }
}

/// The completion candidates are exactly the suffixes, after the buffer, of
/// the builtin and catalog names the buffer prefixes.
pub proof fn lemma_candidates_complete(names: Seq<Seq<char>>, buf: Seq<char>, e: Seq<char>)
    ensures
        candidates_spec(names, buf).contains(e) <==> is_candidate(builtin_names() + names, buf, e),
{
    lemma_candidates_rec_elems(builtin_names() + names, buf, Seq::empty(), e);
}

/// The longest common prefix of two character sequences.
pub open spec fn lcp2(a: Seq<char>, b: Seq<char>) -> Seq<char>
    decreases a.len(),
{
    if a.len() == 0 || b.len() == 0 || a[0] != b[0] {
        Seq::empty()
    } else {
        seq![a[0]] + lcp2(a.skip(1), b.skip(1))
    }
}

/// The two sequences agree up to the first mismatch, and the common prefix
/// is exactly that long.
proof fn lemma_lcp2_take(a: Seq<char>, b: Seq<char>, l: int)
    requires
        0 <= l <= a.len(),
        l <= b.len(),
        forall|m: int| 0 <= m < l ==> a[m] == b[m],
        l == a.len() || l == b.len() || a[l] != b[l],
    ensures
        lcp2(a, b) == a.take(l),
    decreases l,
{
    if l == 0 {
        assert(a.take(0) =~= Seq::<char>::empty());
    } else {
        assert(a[0] == b[0]);
        assert(forall|m: int| 0 <= m < l - 1 ==> a.skip(1)[m] == b.skip(1)[m]) by {
            assert(forall|m: int| 0 <= m < a.skip(1).len() ==> a.skip(1)[m] == a[m + 1]);
            assert(forall|m: int| 0 <= m < b.skip(1).len() ==> b.skip(1)[m] == b[m + 1]);
        }
        assert(l - 1 == a.skip(1).len() || l - 1 == b.skip(1).len() || a.skip(1)[l - 1] != b.skip(
            1,
        )[l - 1]) by {
            if l < a.len() && l < b.len() {
                assert(a.skip(1)[l - 1] == a[l]);
                assert(b.skip(1)[l - 1] == b[l]);
            }
        }
        lemma_lcp2_take(a.skip(1), b.skip(1), l - 1);
        assert(seq![a[0]] + a.skip(1).take(l - 1) =~= a.take(l));
    }
}

/// The longest common prefix of two strings.
fn lcp2_exec(a: &str, b: &str) -> (r: String)
    ensures
        r@ == lcp2(a@, b@),
{
    let na = a.unicode_len();
    let nb = b.unicode_len();
    let mut l: usize = 0;
    let mut done = false;
    while !done
        invariant
            l <= na,
            l <= nb,
            na == a@.len(),
            nb == b@.len(),
            forall|m: int| 0 <= m < l ==> a@[m] == b@[m],
            done ==> (l == na || l == nb || a@[l as int] != b@[l as int]),
        decreases na - l, (if done {
            0int
        } else {
            1int
        }),
    {
        if l < na && l < nb {
            if a.get_char(l) == b.get_char(l) {
                l += 1;
            } else {
                done = true;
            }
        } else {
            done = true;
        }
    }
    proof {
        lemma_lcp2_take(a@, b@, l as int);
    }
    let p = a.substring_char(0, l);
    proof {
        assert(p@ =~= a@.take(l as int));
    }
    String::from_str(p)
}

/// The fold of pairwise common prefixes over the remaining candidates.
pub open spec fn lcp_rec(vs: Seq<Seq<char>>, acc: Seq<char>) -> Seq<char>
    decreases vs.len(),
{
    if vs.len() == 0 {
        acc
    } else {
        lcp_rec(vs.skip(1), lcp2(acc, vs[0]))
    }
}

/// The longest common prefix of all the candidates.
pub open spec fn lcp_all(vs: Seq<Seq<char>>) -> Seq<char>
    recommends
        vs.len() > 0,
{
    lcp_rec(vs.skip(1), vs[0])
}

/// Computes the longest common prefix of the candidates.
pub fn lcp_all_exec(cands: &Vec<String>) -> (r: String)
    requires
        cands@.len() > 0,
    ensures
        r@ == lcp_all(cands.deep_view()),
{
    let ghost vs = cands.deep_view();
    let mut p = cands[0].clone();
    let mut k: usize = 1;
    proof {
        assert(vs.skip(1).skip(0) =~= vs.skip(1));
    }
    while k < cands.len()
        invariant
            1 <= k <= cands.len(),
            vs == cands.deep_view(),
            lcp_rec(vs.skip(k as int), p@) == lcp_all(vs),
        decreases cands.len() - k,
    {
        proof {
            assert(vs.skip(k as int)[0] == vs[k as int]);
            assert(vs.skip(k as int).skip(1) =~= vs.skip(k as int + 1));
        }
        p = lcp2_exec(p.as_str(), cands[k].as_str());
        k += 1;
    }
    proof {
        assert(vs.skip(cands.len() as int) =~= Seq::<Seq<char>>::empty());
    }
    p
}

/// The pairwise common prefix is a prefix of both sequences.
proof fn lemma_lcp2_is_prefix(a: Seq<char>, b: Seq<char>)
    ensures
        is_prefix_of(lcp2(a, b), a),
        is_prefix_of(lcp2(a, b), b),
    decreases a.len(),
{
    if a.len() == 0 || b.len() == 0 || a[0] != b[0] {
        assert(a.take(0) =~= Seq::<char>::empty());
        assert(b.take(0) =~= Seq::<char>::empty());
    } else {
        lemma_lcp2_is_prefix(a.skip(1), b.skip(1));
        let p = lcp2(a, b);
        assert(a.take(p.len() as int) =~= seq![a[0]] + a.skip(1).take(p.len() - 1));
        assert(b.take(p.len() as int) =~= seq![b[0]] + b.skip(1).take(p.len() - 1));
    }
}

/// No common prefix of both sequences is longer than their pairwise common
/// prefix.
proof fn lemma_lcp2_longest(a: Seq<char>, b: Seq<char>, q: Seq<char>)
    requires
        is_prefix_of(q, a),
        is_prefix_of(q, b),
    ensures
        q.len() <= lcp2(a, b).len(),
    decreases a.len(),
{
    if q.len() > 0 {
        assert(q[0] == a[0] && q[0] == b[0]) by {
            assert(a.take(q.len() as int)[0] == a[0]);
            assert(b.take(q.len() as int)[0] == b[0]);
        }
        assert(is_prefix_of(q.skip(1), a.skip(1)) && is_prefix_of(q.skip(1), b.skip(1))) by {
            assert(a.skip(1).take(q.len() - 1) =~= a.take(q.len() as int).skip(1));
            assert(b.skip(1).take(q.len() - 1) =~= b.take(q.len() as int).skip(1));
            assert(q.skip(1) =~= a.take(q.len() as int).skip(1)) by {
                assert(forall|m: int|
                    0 <= m < q.skip(1).len() ==> q.skip(1)[m] == q[m + 1] && a.take(
                        q.len() as int,
                    ).skip(1)[m] == a[m + 1]);
                assert(forall|m: int| 0 <= m < q.len() ==> q[m] == a.take(q.len() as int)[m]);
            }
            assert(q.skip(1) =~= b.take(q.len() as int).skip(1)) by {
                assert(forall|m: int|
                    0 <= m < q.skip(1).len() ==> q.skip(1)[m] == q[m + 1] && b.take(
                        q.len() as int,
                    ).skip(1)[m] == b[m + 1]);
                assert(forall|m: int| 0 <= m < q.len() ==> q[m] == b.take(q.len() as int)[m]);
            }
        }
        lemma_lcp2_longest(a.skip(1), b.skip(1), q.skip(1));
    }
}

/// A prefix of a prefix is a prefix of the whole.
proof fn lemma_prefix_trans(q: Seq<char>, p: Seq<char>, s: Seq<char>)
    requires
        is_prefix_of(q, p),
        is_prefix_of(p, s),
    ensures
        is_prefix_of(q, s),
{
    assert(s.take(q.len() as int) =~= p.take(q.len() as int)) by {
        assert(forall|m: int| 0 <= m < p.len() ==> p[m] == s.take(p.len() as int)[m]);
    }
}

/// The fold's result prefixes the accumulator and every remaining candidate,
/// and any sequence prefixing all of them prefixes the result.
proof fn lemma_lcp_rec(vs: Seq<Seq<char>>, acc: Seq<char>)
    ensures
        is_prefix_of(lcp_rec(vs, acc), acc),
        forall|k: int| 0 <= k < vs.len() ==> is_prefix_of(lcp_rec(vs, acc), #[trigger] vs[k]),
        forall|q: Seq<char>|
            is_prefix_of(q, acc) && (forall|k: int|
                0 <= k < vs.len() ==> is_prefix_of(q, #[trigger] vs[k])) ==> q.len() <= (
            #[trigger] lcp_rec(vs, acc)).len(),
    decreases vs.len(),
{
    if vs.len() == 0 {
        assert(acc.take(acc.len() as int) =~= acc);
    } else {
        lemma_lcp2_is_prefix(acc, vs[0]);
        lemma_lcp_rec(vs.skip(1), lcp2(acc, vs[0]));
        let r = lcp_rec(vs, acc);
        lemma_prefix_trans(r, lcp2(acc, vs[0]), acc);
        lemma_prefix_trans(r, lcp2(acc, vs[0]), vs[0]);
        assert(forall|k: int| 1 <= k < vs.len() ==> vs.skip(1)[k - 1] == vs[k]);
        assert forall|q: Seq<char>|
            is_prefix_of(q, acc) && (forall|k: int|
                0 <= k < vs.len() ==> is_prefix_of(q, #[trigger] vs[k])) implies q.len() <= (
        #[trigger] lcp_rec(vs, acc)).len() by {
            lemma_lcp2_longest(acc, vs[0], q);
            let p2 = lcp2(acc, vs[0]);
            assert(is_prefix_of(q, p2)) by {
                assert(q.len() <= p2.len());
                assert(is_prefix_of(p2, acc));
                assert(p2.take(q.len() as int) =~= acc.take(q.len() as int)) by {
                    assert(forall|m: int| 0 <= m < p2.len() ==> p2[m] == acc.take(
                        p2.len() as int,
                    )[m]);
                }
            }
            assert(forall|k: int|
                0 <= k < vs.skip(1).len() ==> is_prefix_of(q, #[trigger] vs.skip(1)[k]));
        }
    }
}

/// The completion fold computes the longest common prefix: it prefixes every
/// candidate, and nothing longer prefixes them all.
pub proof fn lemma_lcp_all_longest(vs: Seq<Seq<char>>)
    requires
        vs.len() > 0,
    ensures
        forall|k: int| 0 <= k < vs.len() ==> is_prefix_of(lcp_all(vs), #[trigger] vs[k]),
        forall|q: Seq<char>| #![trigger q.len()]
            (forall|k: int| 0 <= k < vs.len() ==> is_prefix_of(q, #[trigger] vs[k])) ==> q.len()
                <= lcp_all(vs).len(),
{
    lemma_lcp_rec(vs.skip(1), vs[0]);
    assert(forall|k: int| 1 <= k < vs.len() ==> vs.skip(1)[k - 1] == vs[k]);
    assert forall|q: Seq<char>| #![trigger q.len()]
        (forall|k: int| 0 <= k < vs.len() ==> is_prefix_of(q, #[trigger] vs[k])) implies q.len()
        <= lcp_all(vs).len() by {
        assert(is_prefix_of(q, vs[0]));
        assert(forall|k: int|
            0 <= k < vs.skip(1).len() ==> is_prefix_of(q, #[trigger] vs.skip(1)[k]));
    }
}

} // verus!
