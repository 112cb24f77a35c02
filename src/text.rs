//! Character-level helpers on strings: splitting on a separator, joining with
//! one, and the lexicographic order on character sequences.
use vstd::prelude::*;
use vstd::string::*;

verus! {

/// The pieces of `s` between occurrences of `sep`, in the way `str::split`
/// yields them: one more piece than there are separators, empty pieces kept.
pub open spec fn split_spec(s: Seq<char>, sep: char) -> Seq<Seq<char>>
    decreases s.len(),
{
    if s.len() == 0 {
        seq![Seq::<char>::empty()]
    } else {
        let prev = split_spec(s.drop_last(), sep);
        if s.last() == sep {
            prev.push(Seq::<char>::empty())
        } else {
            prev.update(prev.len() - 1, prev.last().push(s.last()))
        }
    }
}

/// `split_spec` always yields at least one piece, and more than one exactly
/// when the separator occurs.
pub proof fn lemma_split_len(s: Seq<char>, sep: char)
    ensures
        split_spec(s, sep).len() >= 1,
        split_spec(s, sep).len() > 1 <==> s.contains(sep),
    decreases s.len(),
{
    if s.len() > 0 {
        let t = s.drop_last();
        lemma_split_len(t, sep);
        if t.contains(sep) {
            let k = choose|k: int| 0 <= k < t.len() && t[k] == sep;
            assert(s[k] == sep);
        }
        if s.contains(sep) && s.last() != sep {
            let k = choose|k: int| 0 <= k < s.len() && s[k] == sep;
            assert(t[k] == sep);
        }
        if s.last() == sep {
            assert(s[s.len() - 1] == sep);
        }
    }
}

/// The last piece of `split_spec` is the suffix of `s` after its last
/// separator, or the whole of `s` when there is none.
pub proof fn lemma_split_last(s: Seq<char>, sep: char)
    ensures
        split_spec(s, sep).last().len() <= s.len(),
        split_spec(s, sep).last() =~= s.subrange(
            s.len() - split_spec(s, sep).last().len(),
            s.len() as int,
        ),
        !split_spec(s, sep).last().contains(sep),
        !s.contains(sep) ==> split_spec(s, sep).last() == s,
        s.contains(sep) ==> split_spec(s, sep).last().len() < s.len(),
        s.contains(sep) ==> s[s.len() - split_spec(s, sep).last().len() - 1] == sep,
    decreases s.len(),
{
    lemma_split_len(s, sep);
    if s.len() > 0 {
        let t = s.drop_last();
        lemma_split_last(t, sep);
        lemma_split_len(t, sep);
        let p = split_spec(t, sep);
        let q = split_spec(s, sep);
        if s.last() == sep {
            assert(q.last() =~= Seq::<char>::empty());
            assert(s[s.len() - 1] == sep);
        } else {
            assert(q.last() =~= p.last().push(s.last()));
            if q.last().contains(sep) {
                let k = choose|k: int| 0 <= k < q.last().len() && q.last()[k] == sep;
                assert(p.last()[k] == sep);
            }
            if !s.contains(sep) {
                assert forall|k: int| 0 <= k < t.len() implies t[k] != sep by {
                    assert(s[k] == t[k]);
                }
                assert(!t.contains(sep));
                assert(q.last() =~= s);
            }
            if s.contains(sep) {
                let k = choose|k: int| 0 <= k < s.len() && s[k] == sep;
                assert(t[k] == sep);
                assert(t.contains(sep));
                assert(q.last().len() == p.last().len() + 1);
                assert(t.len() - p.last().len() - 1 >= 0);
                assert(s[t.len() - p.last().len() - 1] == t[t.len() - p.last().len() - 1]);
            }
        }
    }
}

/// Extending the prefix `s[0..i]` by its next character extends the split as
/// `split_spec` describes.
proof fn lemma_split_step(s: Seq<char>, i: int, sep: char)
    requires
        0 <= i < s.len(),
    ensures
        split_spec(s.subrange(0, i + 1), sep) == ({
            let prev = split_spec(s.subrange(0, i), sep);
            if s[i] == sep {
                prev.push(Seq::<char>::empty())
            } else {
                prev.update(prev.len() - 1, prev.last().push(s[i]))
            }
        }),
{
    assert(s.subrange(0, i + 1).drop_last() =~= s.subrange(0, i));
}

/// Splits `s` at every occurrence of `sep`.
pub fn split_on(s: &str, sep: char) -> (r: Vec<String>)
    ensures
        r@.map_values(|p: String| p@) == split_spec(s@, sep),
{
    let n = s.unicode_len();
    let mut pieces: Vec<String> = Vec::new();
    let mut start: usize = 0;
    let mut i: usize = 0;
    assert(s@.subrange(0, 0) =~= Seq::<char>::empty());
    assert(pieces@.map_values(|p: String| p@).push(s@.subrange(0, 0)) =~= seq![
        Seq::<char>::empty(),
    ]);
    while i < n
        invariant
            n == s@.len(),
            start <= i <= n,
            pieces@.map_values(|p: String| p@).push(s@.subrange(start as int, i as int))
                == split_spec(s@.subrange(0, i as int), sep),
        decreases n - i,
    {
        proof {
            lemma_split_step(s@, i as int, sep);
            lemma_split_len(s@.subrange(0, i as int), sep);
        }
        let c = s.get_char(i);
        if c == sep {
            let piece = String::from_str(s.substring_char(start, i));
            let ghost before = pieces@.map_values(|p: String| p@);
            pieces.push(piece);
            assert(pieces@.map_values(|p: String| p@) =~= before.push(piece@));
            start = i + 1;
            assert(s@.subrange(start as int, i + 1) =~= Seq::<char>::empty());
            i = i + 1;
        } else {
            let ghost before = pieces@.map_values(|p: String| p@);
            assert(s@.subrange(start as int, i + 1) =~= s@.subrange(start as int, i as int).push(c));
            i = i + 1;
            assert(before.push(s@.subrange(start as int, i as int)) =~= before.push(
                s@.subrange(start as int, i - 1),
            ).update(before.len() as int, s@.subrange(start as int, i - 1).push(c)));
        }
    }
    let last = String::from_str(s.substring_char(start, n));
    let ghost before = pieces@.map_values(|p: String| p@);
    pieces.push(last);
    assert(pieces@.map_values(|p: String| p@) =~= before.push(last@));
    assert(s@.subrange(0, n as int) =~= s@);
    pieces
}

/// The pieces joined with `sep` between consecutive pieces, as `join` on a
/// slice of strings produces them.
pub open spec fn join_spec(parts: Seq<Seq<char>>, sep: Seq<char>) -> Seq<char>
    decreases parts.len(),
{
    if parts.len() == 0 {
        Seq::<char>::empty()
    } else if parts.len() == 1 {
        parts[0]
    } else {
        join_spec(parts.drop_last(), sep) + sep + parts.last()
    }
}

/// Joins the strings of `parts` with `sep` between them.
pub fn join_with(parts: &Vec<String>, sep: &str) -> (r: String)
    ensures
        r@ == join_spec(parts@.map_values(|p: String| p@), sep@),
{
    let mut out = String::new();
    let mut i: usize = 0;
    while i < parts.len()
        invariant
            i <= parts.len(),
            out@ == join_spec(parts@.subrange(0, i as int).map_values(|p: String| p@), sep@),
        decreases parts.len() - i,
    {
        let ghost prev = parts@.subrange(0, i as int).map_values(|p: String| p@);
        let ghost next = parts@.subrange(0, i + 1).map_values(|p: String| p@);
        assert(next.drop_last() =~= prev);
        if i > 0 {
            out.append(sep);
        }
        out.append(parts[i].as_str());
        i = i + 1;
        proof {
            if i == 1 {
                assert(out@ =~= next[0]);
            }
        }
    }
    assert(parts@.subrange(0, parts.len() as int) =~= parts@);
    out
}

/// `a` comes no later than `b` in lexicographic order by code point, the
/// order in which `String` compares.
pub open spec fn seq_le(a: Seq<char>, b: Seq<char>) -> bool
    decreases a.len(),
{
    if a.len() == 0 {
        true
    } else if b.len() == 0 {
        false
    } else if a[0] != b[0] {
        (a[0] as int) < (b[0] as int)
    } else {
        seq_le(a.drop_first(), b.drop_first())
    }
}

/// Each element of `s` comes no later than the next one.
pub open spec fn sorted_spec(s: Seq<Seq<char>>) -> bool {
    forall|i: int, j: int| 0 <= i < j < s.len() ==> seq_le(s[i], s[j])
}

/// The lexicographic order is total.
pub proof fn lemma_seq_le_total(a: Seq<char>, b: Seq<char>)
    ensures
        seq_le(a, b) || seq_le(b, a),
    decreases a.len(),
{
    if a.len() > 0 && b.len() > 0 {
        if a[0] == b[0] {
            lemma_seq_le_total(a.drop_first(), b.drop_first());
        } else {
            assert((a[0] as int) != (b[0] as int));
        }
    }
}

/// The lexicographic order is transitive.
pub proof fn lemma_seq_le_trans(a: Seq<char>, b: Seq<char>, c: Seq<char>)
    requires
        seq_le(a, b),
        seq_le(b, c),
    ensures
        seq_le(a, c),
    decreases a.len(),
{
    if a.len() > 0 && b.len() > 0 && c.len() > 0 && a[0] == b[0] && b[0] == c[0] {
        lemma_seq_le_trans(a.drop_first(), b.drop_first(), c.drop_first());
    }
}

/// Whether `a` comes no later than `b` in lexicographic order.
pub fn str_le(a: &str, b: &str) -> (r: bool)
    ensures
        r == seq_le(a@, b@),
{
    let na = a.unicode_len();
    let nb = b.unicode_len();
    let mut i: usize = 0;
    assert(a@.subrange(0, na as int) =~= a@);
    assert(b@.subrange(0, nb as int) =~= b@);
    while i < na && i < nb
        invariant
            na == a@.len(),
            nb == b@.len(),
            i <= na,
            i <= nb,
            seq_le(a@, b@) == seq_le(a@.subrange(i as int, na as int), b@.subrange(i as int, nb as int)),
        decreases na - i,
    {
        let ca = a.get_char(i);
        let cb = b.get_char(i);
        let ghost sa = a@.subrange(i as int, na as int);
        let ghost sb = b@.subrange(i as int, nb as int);
        assert(sa[0] == ca && sb[0] == cb);
        if ca != cb {
            return (ca as u32) < (cb as u32);
        }
        assert(sa.drop_first() =~= a@.subrange(i + 1, na as int));
        assert(sb.drop_first() =~= b@.subrange(i + 1, nb as int));
        i = i + 1;
    }
    i == na
}

/// Relies on `itertools::Itertools::sorted`, which collects the items and
/// sorts them with `slice::sort`: the same strings, each once for each time
/// it was given, in the order of `Ord` for `String` (by bytes, which for UTF-8
/// is the order by code point).
#[verifier::external_body]
pub(crate) fn sorted_strings(v: Vec<String>) -> (r: Vec<String>)
    ensures
        r@.map_values(|p: String| p@).to_multiset() == v@.map_values(|p: String| p@).to_multiset(),
        sorted_spec(r@.map_values(|p: String| p@)),
{
    itertools::Itertools::sorted(v.into_iter()).collect()
}

} // verus!
