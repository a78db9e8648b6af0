//! The plaintext record set: newline-separated `username|secret` lines, and
//! the lookup, upsert and delete operations on it.
use vstd::prelude::*;

verus! {

/// Byte that ends a line.
pub const LINE_BREAK: u8 = 0x0a;

/// Byte between a username and its secret.
pub const DELIMITER: u8 = 0x7c;

/// The lines of a text, split at every line break (a text with `n` breaks
/// has `n + 1` lines; the empty text is one empty line).
pub open spec fn split_lines(t: Seq<u8>) -> Seq<Seq<u8>>
    decreases t.len(),
{
    if t.len() == 0 {
        seq![Seq::<u8>::empty()]
    } else {
        let prev = split_lines(t.drop_last());
        if t.last() == LINE_BREAK {
            prev.push(Seq::<u8>::empty())
        } else {
            prev.update(prev.len() - 1, prev.last().push(t.last()))
        }
    }
}

/// The lines glued back together with a line break between neighbours.
pub open spec fn join_lines(ls: Seq<Seq<u8>>) -> Seq<u8>
    decreases ls.len(),
{
    if ls.len() == 0 {
        Seq::<u8>::empty()
    } else if ls.len() == 1 {
        ls[0]
    } else {
        join_lines(ls.drop_last()) + seq![LINE_BREAK] + ls.last()
    }
}

/// The line `username|secret`.
pub open spec fn record_line(u: Seq<u8>, s: Seq<u8>) -> Seq<u8> {
    u + seq![DELIMITER] + s
}

/// A line holds the record of `u` when it begins with `u|`.
pub open spec fn is_record_of(line: Seq<u8>, u: Seq<u8>) -> bool {
    line.len() > u.len() && line.subrange(0, u.len() as int) == u && line[u.len() as int]
        == DELIMITER
}

/// The secret part of a record line of `u`: what follows `u|`.
pub open spec fn secret_part(line: Seq<u8>, u: Seq<u8>) -> Seq<u8> {
    line.subrange(u.len() + 1int, line.len() as int)
}

/// Index of the first line at or after `i` that holds the record of `u`, or -1.
pub open spec fn first_match_from(ls: Seq<Seq<u8>>, u: Seq<u8>, i: int) -> int
    decreases ls.len() - i,
{
    if i < 0 || i >= ls.len() {
        -1
    } else if is_record_of(ls[i], u) {
        i
    } else {
        first_match_from(ls, u, i + 1)
    }
}

/// Index of the first line that holds the record of `u`, or -1.
pub open spec fn first_match(ls: Seq<Seq<u8>>, u: Seq<u8>) -> int {
    first_match_from(ls, u, 0)
}

/// The secret of the first record of `u` in the text, if any.
pub open spec fn lookup_spec(t: Seq<u8>, u: Seq<u8>) -> Option<Seq<u8>> {
    let ls = split_lines(t);
    let k = first_match(ls, u);
    if k < 0 {
        None
    } else {
        Some(secret_part(ls[k], u))
    }
}

/// The text with the first record of `u` set to `s`, or with a new record
/// line appended when there is none.
pub open spec fn upsert_spec(t: Seq<u8>, u: Seq<u8>, s: Seq<u8>) -> Seq<u8> {
    let ls = split_lines(t);
    let k = first_match(ls, u);
    if k < 0 {
        t + seq![LINE_BREAK] + record_line(u, s)
    } else {
        join_lines(ls.update(k, record_line(u, s)))
    }
}

/// The text without the first record line of `u`, and whether there was one.
pub open spec fn delete_spec(t: Seq<u8>, u: Seq<u8>) -> (Seq<u8>, bool) {
    let ls = split_lines(t);
    let k = first_match(ls, u);
    if k < 0 {
        (t, false)
    } else {
        (join_lines(ls.remove(k)), true)
    }
}

/// No line break in `s`.
pub open spec fn single_line(s: Seq<u8>) -> bool {
    forall|i: int| 0 <= i < s.len() ==> s[i] != LINE_BREAK
}

/// The byte sequences of a list of lines.
pub open spec fn views(v: Seq<Vec<u8>>) -> Seq<Seq<u8>> {
    v.map_values(|l: Vec<u8>| l@)
}

/// Every text has at least one line.
pub proof fn lemma_split_lines_nonempty(t: Seq<u8>)
    ensures
        split_lines(t).len() >= 1,
    decreases t.len(),
{
    if t.len() > 0 {
        lemma_split_lines_nonempty(t.drop_last());
    }
}

/// Splits a text into its lines.
pub fn split_text(t: &[u8]) -> (r: Vec<Vec<u8>>)
    ensures
        views(r@) == split_lines(t@),
{
    let mut done: Vec<Vec<u8>> = Vec::new();
    let mut cur: Vec<u8> = Vec::new();
    let mut i: usize = 0;
    while i < t.len()
        invariant
            i <= t@.len(),
            views(done@).push(cur@) == split_lines(t@.subrange(0, i as int)),
        decreases t@.len() - i,
    {
        let b = t[i];
        proof {
            assert(t@.subrange(0, i + 1).drop_last() == t@.subrange(0, i as int));
            lemma_split_lines_nonempty(t@.subrange(0, i as int));
        }
        if b == LINE_BREAK {
            let line = cur;
            done.push(line);
            cur = Vec::new();
            assert(views(done@).push(cur@) == split_lines(t@.subrange(0, i + 1)));
        } else {
            cur.push(b);
            assert(views(done@).push(cur@) == split_lines(t@.subrange(0, i + 1)));
        }
        i = i + 1;
    }
    assert(t@.subrange(0, t@.len() as int) == t@);
    done.push(cur);
    assert(views(done@) == split_lines(t@));
    done
}


/// Glues lines together with a line break between neighbours.
pub fn join_text(ls: &Vec<Vec<u8>>) -> (r: Vec<u8>)
    ensures
        r@ == join_lines(views(ls@)),
{
    let mut out: Vec<u8> = Vec::new();
    let mut i: usize = 0;
    while i < ls.len()
        invariant
            i <= ls@.len(),
            out@ == join_lines(views(ls@).subrange(0, i as int)),
        decreases ls@.len() - i,
    {
        let line = &ls[i];
        if i > 0 {
            out.push(LINE_BREAK);
        }
        let mut j: usize = 0;
        let ghost base = out@;
        while j < line.len()
            invariant
                j <= line@.len(),
                out@ == base + line@.subrange(0, j as int),
            decreases line@.len() - j,
        {
            out.push(line[j]);
            assert(line@.subrange(0, j + 1) == line@.subrange(0, j as int).push(line@[j as int]));
            j = j + 1;
        }
        proof {
            let vs = views(ls@);
            assert(line@.subrange(0, line@.len() as int) == line@);
            assert(vs.subrange(0, i + 1).drop_last() == vs.subrange(0, i as int));
            assert(vs.subrange(0, i + 1).last() == line@);
            if i == 0 {
                assert(join_lines(vs.subrange(0, 1)) == vs[0]);
            }
        }
        i = i + 1;
    }
    assert(views(ls@).subrange(0, ls@.len() as int) == views(ls@));
    out
}

/// Whether `line` holds the record of `u`.
pub fn is_record_line(line: &Vec<u8>, u: &[u8]) -> (r: bool)
    ensures
        r == is_record_of(line@, u@),
{
    if line.len() <= u.len() {
        return false;
    }
    let mut j: usize = 0;
    while j < u.len()
        invariant
            j <= u@.len(),
            u@.len() < line@.len(),
            line@.subrange(0, j as int) == u@.subrange(0, j as int),
        decreases u@.len() - j,
    {
        if line[j] != u[j] {
            assert(line@.subrange(0, u@.len() as int)[j as int] != u@[j as int]);
            return false;
        }
        assert(line@.subrange(0, j + 1) == line@.subrange(0, j as int).push(line@[j as int]));
        assert(u@.subrange(0, j + 1) == u@.subrange(0, j as int).push(u@[j as int]));
        j = j + 1;
    }
    assert(u@.subrange(0, u@.len() as int) == u@);
    line[u.len()] == DELIMITER
}

/// The first match from `i` holds the record, and no line before it does.
pub proof fn lemma_first_match_props(ls: Seq<Seq<u8>>, u: Seq<u8>, i: int)
    requires
        0 <= i,
    ensures
        ({
            let k = first_match_from(ls, u, i);
            (k == -1 || (i <= k < ls.len() && is_record_of(ls[k], u))) && forall|j: int|
                i <= j < ls.len() && (k == -1 || j < k) ==> !is_record_of(#[trigger] ls[j], u)
        }),
    decreases ls.len() - i,
{
    if i < ls.len() && !is_record_of(ls[i], u) {
        lemma_first_match_props(ls, u, i + 1);
    }
}

/// A record line with none before it (from `i`) is the first match.
pub proof fn lemma_first_match_at(ls: Seq<Seq<u8>>, u: Seq<u8>, i: int, k: int)
    requires
        0 <= i,
        k == -1 || (i <= k < ls.len() && is_record_of(ls[k], u)),
        forall|j: int| i <= j < ls.len() && (k == -1 || j < k) ==> !is_record_of(#[trigger] ls[j], u),
    ensures
        first_match_from(ls, u, i) == k,
    decreases ls.len() - i,
{
    if i < ls.len() && i != k {
        lemma_first_match_at(ls, u, i + 1, k);
    }
}

/// Index of the first line that holds the record of `u`.
pub fn find_record(ls: &Vec<Vec<u8>>, u: &[u8]) -> (r: Option<usize>)
    ensures
        match r {
            Some(k) => first_match(views(ls@), u@) == k as int,
            None => first_match(views(ls@), u@) == -1,
        },
{
    let mut i: usize = 0;
    while i < ls.len()
        invariant
            i <= ls@.len(),
            first_match(views(ls@), u@) == first_match_from(views(ls@), u@, i as int),
        decreases ls@.len() - i,
    {
        if is_record_line(&ls[i], u) {
            return Some(i);
        }
        i = i + 1;
    }
    None
}

/// The bytes of `b` from `lo` up to `hi`.
pub fn copy_range(b: &[u8], lo: usize, hi: usize) -> (r: Vec<u8>)
    requires
        lo <= hi <= b@.len(),
    ensures
        r@ == b@.subrange(lo as int, hi as int),
{
    let mut out: Vec<u8> = Vec::new();
    let mut j: usize = lo;
    while j < hi
        invariant
            lo <= j <= hi <= b@.len(),
            out@ == b@.subrange(lo as int, j as int),
        decreases hi - j,
    {
        out.push(b[j]);
        assert(b@.subrange(lo as int, j + 1) == b@.subrange(lo as int, j as int).push(b@[j as int]));
        j = j + 1;
    }
    out
}

/// Appends a byte slice to `out`.
pub(crate) fn append_bytes(out: &mut Vec<u8>, b: &[u8])
    ensures
        final(out)@ == old(out)@ + b@,
{
    let mut j: usize = 0;
    while j < b.len()
        invariant
            j <= b@.len(),
            out@ == old(out)@ + b@.subrange(0, j as int),
        decreases b@.len() - j,
    {
        out.push(b[j]);
        assert(b@.subrange(0, j + 1) == b@.subrange(0, j as int).push(b@[j as int]));
        j = j + 1;
    }
    assert(b@.subrange(0, b@.len() as int) == b@);
}

/// Builds the line `username|secret`.
pub fn make_record_line(u: &[u8], s: &[u8]) -> (r: Vec<u8>)
    ensures
        r@ == record_line(u@, s@),
{
    let mut out = copy_range(u, 0, u.len());
    assert(u@.subrange(0, u@.len() as int) == u@);
    out.push(DELIMITER);
    append_bytes(&mut out, s);
    out
}

/// The secret of the first record of `u` in the text `t`.
pub fn lookup(t: &[u8], u: &[u8]) -> (r: Option<Vec<u8>>)
    ensures
        match r {
            Some(s) => lookup_spec(t@, u@) == Some(s@),
            None => lookup_spec(t@, u@) is None,
        },
{
    let ls = split_text(t);
    match find_record(&ls, u) {
        None => None,
        Some(k) => {
            proof {
                lemma_first_match_props(views(ls@), u@, 0);
                assert(views(ls@)[k as int] == ls@[k as int]@);
            }
            let line = &ls[k];
            let start = u.len() + 1;
            let mut out: Vec<u8> = Vec::new();
            let mut j: usize = start;
            while j < line.len()
                invariant
                    start <= j <= line@.len(),
                    out@ == line@.subrange(start as int, j as int),
                decreases line@.len() - j,
            {
                out.push(line[j]);
                assert(line@.subrange(start as int, j + 1) == line@.subrange(start as int, j as int).push(line@[j as int]));
                j = j + 1;
            }
            Some(out)
        },
    }
}

/// Sets the secret of `u` to `s`: the first record of `u` is rewritten, or a
/// new record line is appended when `u` has none.
pub fn upsert(t: &[u8], u: &[u8], s: &[u8]) -> (r: Vec<u8>)
    ensures
        r@ == upsert_spec(t@, u@, s@),
{
    let mut ls = split_text(t);
    let rec = make_record_line(u, s);
    match find_record(&ls, u) {
        None => {
            let mut out = copy_range(t, 0, t.len());
            assert(t@.subrange(0, t@.len() as int) == t@);
            out.push(LINE_BREAK);
            append_bytes(&mut out, rec.as_slice());
            proof {
                assert(out@ == t@ + seq![LINE_BREAK] + rec@);
            }
            out
        },
        Some(k) => {
            proof {
                lemma_first_match_props(views(ls@), u@, 0);
            }
            ls.set(k, rec);
            assert(views(ls@) == split_lines(t@).update(k as int, record_line(u@, s@)));
            join_text(&ls)
        },
    }
}

/// Removes the first record line of `u`; the flag says whether there was one.
/// Without one the text comes back unchanged.
pub fn delete(t: &[u8], u: &[u8]) -> (r: (Vec<u8>, bool))
    ensures
        (r.0@, r.1) == delete_spec(t@, u@),
{
    let mut ls = split_text(t);
    match find_record(&ls, u) {
        None => {
            assert(t@.subrange(0, t@.len() as int) == t@);
            (copy_range(t, 0, t.len()), false)
        },
        Some(k) => {
            proof {
                lemma_first_match_props(views(ls@), u@, 0);
            }
            ls.remove(k);
            assert(views(ls@) == split_lines(t@).remove(k as int));
            (join_text(&ls), true)
        },
    }
}


/// Appending text without a line break extends the last line.
pub proof fn lemma_split_append_line(a: Seq<u8>, b: Seq<u8>)
    requires
        single_line(b),
    ensures
        ({
            let l = split_lines(a);
            split_lines(a + b) == l.update(l.len() - 1, l.last() + b)
        }),
    decreases b.len(),
{
    lemma_split_lines_nonempty(a);
    let l = split_lines(a);
    if b.len() == 0 {
        assert(a + b == a);
        assert(l.last() + b == l.last());
        assert(l.update(l.len() - 1, l.last()) == l);
    } else {
        let bp = b.drop_last();
        lemma_split_append_line(a, bp);
        assert((a + b).drop_last() == a + bp);
        assert((a + b).last() == b.last());
        assert(b.last() != LINE_BREAK);
        assert((l.last() + bp).push(b.last()) == l.last() + b);
    }
}

/// A line break followed by text without one starts a new last line.
pub proof fn lemma_split_break_line(a: Seq<u8>, b: Seq<u8>)
    requires
        single_line(b),
    ensures
        split_lines(a + seq![LINE_BREAK] + b) == split_lines(a).push(b),
{
    let a1 = a + seq![LINE_BREAK];
    assert(a1.drop_last() == a);
    lemma_split_append_line(a1, b);
    assert(Seq::<u8>::empty() + b == b);
}

/// No line of a split text holds a line break.
pub proof fn lemma_split_lines_single(t: Seq<u8>)
    ensures
        forall|i: int| 0 <= i < split_lines(t).len() ==> single_line(#[trigger] split_lines(t)[i]),
    decreases t.len(),
{
    if t.len() > 0 {
        lemma_split_lines_single(t.drop_last());
        lemma_split_lines_nonempty(t.drop_last());
        let prev = split_lines(t.drop_last());
        if t.last() != LINE_BREAK {
            assert(single_line(prev.last().push(t.last()))) by {
                assert(single_line(prev[prev.len() - 1]));
            }
        }
    }
}

/// Splitting joined single-line lines gives the lines back.
pub proof fn lemma_split_join(ls: Seq<Seq<u8>>)
    requires
        ls.len() >= 1,
        forall|i: int| 0 <= i < ls.len() ==> single_line(#[trigger] ls[i]),
    ensures
        split_lines(join_lines(ls)) == ls,
    decreases ls.len(),
{
    if ls.len() == 1 {
        lemma_split_append_line(Seq::<u8>::empty(), ls[0]);
        assert(Seq::<u8>::empty() + ls[0] == ls[0]);
        assert(seq![Seq::<u8>::empty()].update(0, Seq::<u8>::empty() + ls[0]) == ls);
    } else {
        let p = ls.drop_last();
        assert forall|i: int| 0 <= i < p.len() implies single_line(#[trigger] p[i]) by {
            assert(p[i] == ls[i]);
        }
        lemma_split_join(p);
        assert(single_line(ls[ls.len() - 1]));
        lemma_split_break_line(join_lines(p), ls.last());
        assert(p.push(ls.last()) == ls);
    }
}

/// A record line of `u` holds the record of `u` with its secret.
pub proof fn lemma_record_line(u: Seq<u8>, s: Seq<u8>)
    ensures
        is_record_of(record_line(u, s), u),
        secret_part(record_line(u, s), u) == s,
        single_line(u) && single_line(s) ==> single_line(record_line(u, s)),
{
    let r = record_line(u, s);
    assert(r.subrange(0, u.len() as int) == u);
    assert(r.subrange(u.len() + 1int, r.len() as int) == s);
    if single_line(u) && single_line(s) {
        assert forall|i: int| 0 <= i < r.len() implies r[i] != LINE_BREAK by {
            if i < u.len() {
                assert(r[i] == u[i]);
            } else if i > u.len() {
                assert(r[i] == s[i - u.len() - 1]);
            }
        }
    }
}

/// Setting the first record of `u` in single-line text lines keeps the lines
/// through a join and split, and that record stays the first one of `u`.
pub proof fn lemma_rewrite_record(ls: Seq<Seq<u8>>, u: Seq<u8>, s: Seq<u8>, k: int)
    requires
        ls.len() >= 1,
        forall|i: int| 0 <= i < ls.len() ==> single_line(#[trigger] ls[i]),
        single_line(u),
        single_line(s),
        0 <= k < ls.len(),
        forall|j: int| 0 <= j < k ==> !is_record_of(#[trigger] ls[j], u),
    ensures
        split_lines(join_lines(ls.update(k, record_line(u, s)))) == ls.update(k, record_line(u, s)),
        first_match(ls.update(k, record_line(u, s)), u) == k,
{
    let l2 = ls.update(k, record_line(u, s));
    lemma_record_line(u, s);
    assert forall|i: int| 0 <= i < l2.len() implies single_line(#[trigger] l2[i]) by {
        if i != k {
            assert(l2[i] == ls[i]);
        }
    }
    lemma_split_join(l2);
    assert forall|j: int| 0 <= j < l2.len() && j < k implies !is_record_of(#[trigger] l2[j], u) by {
        assert(l2[j] == ls[j]);
    }
    lemma_first_match_at(l2, u, 0, k);
}

/// Deleting a username that has no record leaves the text unchanged and
/// reports it as absent, and doing so again gives the same answer.
pub proof fn lemma_delete_absent_idempotent(t: Seq<u8>, u: Seq<u8>)
    requires
        lookup_spec(t, u) is None,
    ensures
        delete_spec(t, u) == (t, false),
        delete_spec(delete_spec(t, u).0, u) == (t, false),
{
}

/// After setting the secret of `u` to `s1` and then to `s2`, a lookup of `u`
/// gives `s2`, and the second upsert adds no line; when `u` had no record
/// before, exactly one line holds a record of `u` afterwards.
pub proof fn lemma_upsert_overwrite(t: Seq<u8>, u: Seq<u8>, s1: Seq<u8>, s2: Seq<u8>)
    requires
        single_line(u),
        single_line(s1),
        single_line(s2),
    ensures
        ({
            let t1 = upsert_spec(t, u, s1);
            let t2 = upsert_spec(t1, u, s2);
            &&& lookup_spec(t2, u) == Some(s2)
            &&& split_lines(t2).len() == split_lines(t1).len()
            &&& lookup_spec(t, u) is None ==> forall|i: int, j: int|
                0 <= i < split_lines(t2).len() && 0 <= j < split_lines(t2).len()
                    && is_record_of(#[trigger] split_lines(t2)[i], u)
                    && is_record_of(#[trigger] split_lines(t2)[j], u) ==> i == j
        }),
{
    let ls = split_lines(t);
    lemma_split_lines_nonempty(t);
    lemma_split_lines_single(t);
    lemma_first_match_props(ls, u, 0);
    lemma_record_line(u, s1);
    lemma_record_line(u, s2);
    let k = first_match(ls, u);
    let t1 = upsert_spec(t, u, s1);
    let ls1 = split_lines(t1);
    let k1: int;
    if k < 0 {
        lemma_split_break_line(t, record_line(u, s1));
        assert(ls1 == ls.push(record_line(u, s1)));
        k1 = ls.len() as int;
        assert forall|j: int| 0 <= j < k1 implies !is_record_of(#[trigger] ls1[j], u) by {
            assert(ls1[j] == ls[j]);
        }
        lemma_first_match_at(ls1, u, 0, k1);
    } else {
        lemma_rewrite_record(ls, u, s1, k);
        k1 = k;
    }
    assert(first_match(ls1, u) == k1);
    lemma_split_lines_nonempty(t1);
    lemma_split_lines_single(t1);
    lemma_first_match_props(ls1, u, 0);
    lemma_rewrite_record(ls1, u, s2, k1);
    let ls2 = ls1.update(k1, record_line(u, s2));
    let t2 = upsert_spec(t1, u, s2);
    assert(split_lines(t2) == ls2);
    assert(ls2[k1] == record_line(u, s2));
    if k < 0 {
        assert forall|i: int, j: int|
            0 <= i < ls2.len() && 0 <= j < ls2.len() && is_record_of(#[trigger] ls2[i], u)
                && is_record_of(#[trigger] ls2[j], u) implies i == j by {
            if i != k1 {
                assert(ls2[i] == ls[i]);
            }
            if j != k1 {
                assert(ls2[j] == ls[j]);
            }
        }
    }
}

} // verus!
