//! Character-sequence helpers shared by the rest of the library.

use vstd::prelude::*;

verus! {

/// `String::push` of std: appends one character at the end.
#[verifier::external_body]
pub(crate) fn push_char(s: &mut String, c: char)
    ensures
        final(s)@ == old(s)@.push(c),
{
    s.push(c);
}

/// The characters of a string slice, in order.
pub(crate) fn chars_of(s: &str) -> (r: Vec<char>)
    ensures
        r@ == s@,
{
    let mut v: Vec<char> = Vec::new();
    for c in it: s.chars()
        invariant
            v@ == it.seq().take(it.index() as int),
    {
        v.push(c);
    }
    v
}

/// The string made of `cs[from..to]`.
pub(crate) fn string_of_range(cs: &Vec<char>, from: usize, to: usize) -> (r: String)
    requires
        from <= to <= cs.len(),
    ensures
        r@ == cs@.subrange(from as int, to as int),
{
    let mut out = String::new();
    let mut i = from;
    while i < to
        invariant
            from <= i <= to <= cs.len(),
            out@ == cs@.subrange(from as int, i as int),
        decreases to - i,
    {
        push_char(&mut out, cs[i]);
        i = i + 1;
        assert(out@ =~= cs@.subrange(from as int, i as int));
    }
    out
}

/// `s` begins with `prefix`.
pub open spec fn has_prefix(s: Seq<char>, prefix: Seq<char>) -> bool {
    prefix.len() <= s.len() && s.subrange(0, prefix.len() as int) == prefix
}

/// Whether `s` begins with `prefix`.
pub(crate) fn starts_with(s: &Vec<char>, prefix: &str) -> (r: bool)
    ensures
        r == has_prefix(s@, prefix@),
{
    let p = chars_of(prefix);
    if p.len() > s.len() {
        return false;
    }
    let mut i: usize = 0;
    while i < p.len()
        invariant
            p@ == prefix@,
            p.len() <= s.len(),
            i <= p.len(),
            s@.subrange(0, i as int) == p@.subrange(0, i as int),
        decreases p.len() - i,
    {
        if s[i] != p[i] {
            assert(s@.subrange(0, p.len() as int)[i as int] != p@[i as int]);
            return false;
        }
        i = i + 1;
        assert(s@.subrange(0, i as int) =~= p@.subrange(0, i as int));
    }
    assert(p@.subrange(0, i as int) =~= p@);
    true
}

/// The pieces of `s` between occurrences of `sep` (std's `str::split` with a
/// character pattern): there is always at least one piece.
pub open spec fn split(s: Seq<char>, sep: char) -> Seq<Seq<char>>
    decreases s.len(),
{
    if s.len() == 0 {
        seq![Seq::<char>::empty()]
    } else {
        let r = split(s.drop_last(), sep);
        if s.last() == sep {
            r.push(Seq::<char>::empty())
        } else {
            r.update(r.len() - 1, r.last().push(s.last()))
        }
    }
}

/// The pieces joined back together with `sep` between them.
pub open spec fn join(parts: Seq<Seq<char>>, sep: Seq<char>) -> Seq<char>
    decreases parts.len(),
{
    if parts.len() == 0 {
        Seq::<char>::empty()
    } else if parts.len() == 1 {
        parts[0]
    } else {
        join(parts.drop_last(), sep) + sep + parts.last()
    }
}

/// The views of a sequence of strings.
pub open spec fn views(v: Seq<String>) -> Seq<Seq<char>> {
    v.map_values(|s: String| s@)
}

pub proof fn lemma_split_nonempty(s: Seq<char>, sep: char)
    ensures
        split(s, sep).len() >= 1,
    decreases s.len(),
{
    if s.len() > 0 {
        lemma_split_nonempty(s.drop_last(), sep);
    }
}

/// Splitting and joining with the same character gives the string back.
pub proof fn lemma_join_split(s: Seq<char>, sep: char)
    ensures
        join(split(s, sep), seq![sep]) == s,
    decreases s.len(),
{
    if s.len() > 0 {
        let r = split(s.drop_last(), sep);
        lemma_join_split(s.drop_last(), sep);
        lemma_split_nonempty(s.drop_last(), sep);
        if s.last() == sep {
            let p = r.push(Seq::<char>::empty());
            assert(p.drop_last() =~= r);
            assert(s =~= join(r, seq![sep]) + seq![sep] + Seq::<char>::empty());
        } else {
            let p = r.update(r.len() - 1, r.last().push(s.last()));
            if r.len() == 1 {
                assert(s =~= p[0]);
            } else {
                assert(p.drop_last() =~= r.drop_last());
                assert(p.last() == r.last().push(s.last()));
                assert(s =~= s.drop_last().push(s.last()));
                assert(join(p, seq![sep]) == join(p.drop_last(), seq![sep]) + seq![sep] + p.last());
                assert(join(r, seq![sep]) == join(r.drop_last(), seq![sep]) + seq![sep] + r.last());
                assert(s =~= join(p.drop_last(), seq![sep]) + seq![sep] + p.last());
            }
        }
    }
}

/// The pieces of `cs` between occurrences of `sep`.
pub(crate) fn split_chars(cs: &Vec<char>, sep: char) -> (r: Vec<String>)
    ensures
        views(r@) == split(cs@, sep),
{
    let mut parts: Vec<String> = Vec::new();
    let mut cur = String::new();
    let mut i: usize = 0;
    while i < cs.len()
        invariant
            i <= cs.len(),
            views(parts@).push(cur@) == split(cs@.take(i as int), sep),
        decreases cs.len() - i,
    {
        let ghost before = views(parts@).push(cur@);
        let c = cs[i];
        assert(cs@.take(i + 1).drop_last() =~= cs@.take(i as int));
        if c == sep {
            let done = cur;
            parts.push(done);
            cur = String::new();
            assert(views(parts@).push(cur@) =~= before.push(Seq::<char>::empty()));
        } else {
            push_char(&mut cur, c);
            assert(views(parts@).push(cur@) =~= before.update(before.len() - 1, before.last().push(c)));
        }
        i = i + 1;
    }
    assert(cs@.take(i as int) =~= cs@);
    parts.push(cur);
    assert(views(parts@) =~= split(cs@, sep));
    parts
}

/// The strings of `parts[from..]` joined with `sep`.
pub(crate) fn join_from(parts: &Vec<String>, from: usize, sep: &str) -> (r: String)
    requires
        from <= parts.len(),
    ensures
        r@ == join(views(parts@).skip(from as int), sep@),
{
    let mut out = String::new();
    let mut i = from;
    while i < parts.len()
        invariant
            from <= i <= parts.len(),
            out@ == join(views(parts@).subrange(from as int, i as int), sep@),
        decreases parts.len() - i,
    {
        let ghost prev = views(parts@).subrange(from as int, i as int);
        let ghost next = views(parts@).subrange(from as int, i + 1);
        assert(next.drop_last() =~= prev);
        if i > from {
            out.append(sep);
        } else {
            assert(next =~= seq![parts@[i as int]@]);
        }
        out.append(parts[i].as_str());
        i = i + 1;
    }
    assert(views(parts@).subrange(from as int, i as int) =~= views(parts@).skip(from as int));
    out
}

pub proof fn lemma_split_no_sep(x: Seq<char>, sep: char)
    requires
        forall|i: int| 0 <= i < x.len() ==> x[i] != sep,
    ensures
        split(x, sep) == seq![x],
    decreases x.len(),
{
    if x.len() > 0 {
        lemma_split_no_sep(x.drop_last(), sep);
        assert(x.drop_last().push(x.last()) =~= x);
        assert(seq![x.drop_last()].update(0, x.drop_last().push(x.last())) =~= seq![x]);
    } else {
        assert(x =~= Seq::<char>::empty());
    }
}

pub proof fn lemma_split_concat(x: Seq<char>, y: Seq<char>, sep: char)
    ensures
        split(x + seq![sep] + y, sep) == split(x, sep) + split(y, sep),
    decreases y.len(),
{
    let s = x + seq![sep] + y;
    if y.len() == 0 {
        assert(s.drop_last() =~= x);
        assert(split(y, sep) == seq![Seq::<char>::empty()]);
        assert(split(s, sep) =~= split(x, sep) + split(y, sep));
    } else {
        lemma_split_concat(x, y.drop_last(), sep);
        assert(s.drop_last() =~= x + seq![sep] + y.drop_last());
        lemma_split_nonempty(y.drop_last(), sep);
        let a = split(x, sep);
        let b = split(y.drop_last(), sep);
        if y.last() == sep {
            assert(split(s, sep) =~= split(x, sep) + split(y, sep));
        } else {
            assert((a + b).update((a + b).len() - 1, (a + b).last().push(y.last())) =~= a + b.update(
                b.len() - 1,
                b.last().push(y.last()),
            ));
            assert(split(s, sep) =~= split(x, sep) + split(y, sep));
        }
    }
}

} // verus!
