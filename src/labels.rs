use vstd::prelude::*;

verus! {

/// U+002E FULL STOP and the three code points that UTS #46 treats as label
/// separators beside it.
pub open spec fn is_separator(c: char) -> bool {
    c == '.' || c == '\u{3002}' || c == '\u{FF0E}' || c == '\u{FF61}'
}

/// The labels of `s`, splitting at every separator; never empty.
pub open spec fn split_all(s: Seq<char>) -> Seq<Seq<char>>
    decreases s.len(),
{
    if s.len() == 0 {
        seq![Seq::<char>::empty()]
    } else {
        let init = split_all(s.drop_last());
        let c = s.last();
        if is_separator(c) {
            init.push(Seq::<char>::empty())
        } else {
            init.update(init.len() - 1, init.last().push(c))
        }
    }
}

/// The labels of a domain: none for the empty string.
pub open spec fn split_labels(s: Seq<char>) -> Seq<Seq<char>> {
    if s.len() == 0 {
        Seq::empty()
    } else {
        split_all(s)
    }
}

/// The labels joined with U+002E.
pub open spec fn join_labels(ls: Seq<Seq<char>>) -> Seq<char>
    decreases ls.len(),
{
    if ls.len() == 0 {
        Seq::empty()
    } else if ls.len() == 1 {
        ls[0]
    } else {
        join_labels(ls.drop_last()).push('.') + ls.last()
    }
}

pub open spec fn separator_count(s: Seq<char>) -> nat
    decreases s.len(),
{
    if s.len() == 0 {
        0
    } else {
        separator_count(s.drop_last()) + if is_separator(s.last()) {
            1nat
        } else {
            0nat
        }
    }
}

/// `s` with every separator written as U+002E.
pub open spec fn dotted(s: Seq<char>) -> Seq<char> {
    s.map_values(|c: char| if is_separator(c) { '.' } else { c })
}

pub open spec fn has_no_separator(s: Seq<char>) -> bool {
    forall|i: int| 0 <= i < s.len() ==> !is_separator(#[trigger] s[i])
}

/// The number of octets that the UTF-8 form of `c` takes.
pub open spec fn utf8_width(c: char) -> nat {
    let v = c as u32;
    if v < 0x80 {
        1
    } else if v < 0x800 {
        2
    } else if v < 0x10000 {
        3
    } else {
        4
    }
}

/// The number of octets that the UTF-8 form of `s` takes.
pub open spec fn utf8_len(s: Seq<char>) -> nat
    decreases s.len(),
{
    if s.len() == 0 {
        0
    } else {
        utf8_len(s.drop_last()) + utf8_width(s.last())
    }
}

pub proof fn lemma_split_all_nonempty(s: Seq<char>)
    ensures
        split_all(s).len() >= 1,
    decreases s.len(),
{
    if s.len() > 0 {
        lemma_split_all_nonempty(s.drop_last());
    }
}

proof fn lemma_split_extend(s: Seq<char>, t: Seq<char>)
    requires
        has_no_separator(t),
    ensures
        split_all(s + t) == split_all(s).update(
            split_all(s).len() - 1,
            split_all(s).last() + t,
        ),
    decreases t.len(),
{
    lemma_split_all_nonempty(s);
    let ss = split_all(s);
    if t.len() == 0 {
        assert(s + t =~= s);
        assert(ss.last() + t =~= ss.last());
        assert(ss.update(ss.len() - 1, ss.last()) =~= ss);
    } else {
        let t0 = t.drop_last();
        assert(has_no_separator(t0));
        lemma_split_extend(s, t0);
        assert((s + t).drop_last() =~= s + t0);
        assert((s + t).last() == t.last());
        assert(!is_separator(t[t.len() - 1]));
        assert((ss.last() + t0).push(t.last()) =~= ss.last() + t);
        let u = ss.update(ss.len() - 1, ss.last() + t0);
        assert(u.update(u.len() - 1, u.last().push(t.last())) =~= ss.update(
            ss.len() - 1,
            ss.last() + t,
        ));
    }
}

/// Splitting a join of labels that hold no separator gives the same labels,
/// in the same order, unless the join is empty.
pub proof fn lemma_split_join(ls: Seq<Seq<char>>)
    requires
        ls.len() >= 1,
        forall|i: int| 0 <= i < ls.len() ==> has_no_separator(#[trigger] ls[i]),
    ensures
        split_all(join_labels(ls)) == ls,
        join_labels(ls).len() > 0 ==> split_labels(join_labels(ls)) == ls,
    decreases ls.len(),
{
    if ls.len() == 1 {
        lemma_split_extend(Seq::empty(), ls[0]);
        assert(Seq::<char>::empty() + ls[0] =~= ls[0]);
        assert(Seq::<char>::empty() + ls[0] =~= ls[0]);
        assert(seq![Seq::<char>::empty()].update(0, Seq::<char>::empty() + ls[0]) =~= ls);
    } else {
        let init = ls.drop_last();
        assert forall|i: int| 0 <= i < init.len() implies has_no_separator(#[trigger] init[i]) by {
            assert(init[i] == ls[i]);
        }
        lemma_split_join(init);
        let j = join_labels(init);
        let jd = j.push('.');
        assert(jd.drop_last() =~= j);
        assert(split_all(jd) == init.push(Seq::<char>::empty()));
        assert(has_no_separator(ls[ls.len() - 1]));
        lemma_split_extend(jd, ls.last());
        let p = init.push(Seq::<char>::empty());
        assert(p.last() + ls.last() =~= ls.last());
        assert(p.update(p.len() - 1, ls.last()) =~= ls);
    }
}

/// A non-empty domain has one label more than it has separators.
pub proof fn lemma_label_count(s: Seq<char>)
    ensures
        split_all(s).len() == separator_count(s) + 1,
        s.len() > 0 ==> split_labels(s).len() == separator_count(s) + 1,
    decreases s.len(),
{
    if s.len() > 0 {
        lemma_label_count(s.drop_last());
        lemma_split_all_nonempty(s.drop_last());
    }
}

proof fn lemma_join_extend_last(ls: Seq<Seq<char>>, c: char)
    requires
        ls.len() >= 1,
    ensures
        join_labels(ls.update(ls.len() - 1, ls.last().push(c))) == join_labels(ls).push(c),
{
    let u = ls.update(ls.len() - 1, ls.last().push(c));
    if ls.len() >= 2 {
        assert(u.drop_last() =~= ls.drop_last());
        assert(join_labels(ls.drop_last()).push('.') + ls.last().push(c)
            =~= (join_labels(ls.drop_last()).push('.') + ls.last()).push(c));
    }
}

/// Joining the labels of `s` gives `s` back, with each separator written as
/// U+002E: the labels keep their order.
pub proof fn lemma_join_split(s: Seq<char>)
    ensures
        join_labels(split_all(s)) == dotted(s),
        join_labels(split_labels(s)) == dotted(s),
    decreases s.len(),
{
    if s.len() == 0 {
        assert(dotted(s) =~= Seq::<char>::empty());
    } else {
        let init = s.drop_last();
        lemma_join_split(init);
        lemma_split_all_nonempty(init);
        let ls = split_all(init);
        assert(dotted(s) =~= dotted(init).push(if is_separator(s.last()) { '.' } else { s.last() }));
        if is_separator(s.last()) {
            let p = ls.push(Seq::<char>::empty());
            assert(p.drop_last() =~= ls);
            assert(join_labels(ls).push('.') + Seq::<char>::empty() =~= join_labels(ls).push('.'));
        } else {
            lemma_join_extend_last(ls, s.last());
        }
    }
}

/// Where the labels of `s` stand: `r[i]` is the start and end of the `i`th label.
pub fn label_bounds(s: &str) -> (r: Vec<(usize, usize)>)
    ensures
        r@.len() == split_labels(s@).len(),
        forall|i: int|
            0 <= i < r@.len() ==> {
                let (a, b) = #[trigger] r@[i];
                a <= b <= s@.len() && s@.subrange(a as int, b as int) == split_labels(s@)[i]
            },
{
    let n = s.unicode_len();
    let mut r: Vec<(usize, usize)> = Vec::new();
    if n == 0 {
        return r;
    }
    let mut start: usize = 0;
    let mut i: usize = 0;
    let ghost mut labels: Seq<Seq<char>> = Seq::empty();
    assert(s@.subrange(0, 0) =~= Seq::<char>::empty());
    assert(labels.push(s@.subrange(0, 0)) =~= seq![Seq::<char>::empty()]);
    while i < n
        invariant
            n == s@.len(),
            start <= i <= n,
            labels.len() == r@.len(),
            split_all(s@.subrange(0, i as int)) == labels.push(s@.subrange(start as int, i as int)),
            forall|k: int|
                0 <= k < r@.len() ==> {
                    let (a, b) = #[trigger] r@[k];
                    a <= b <= n && s@.subrange(a as int, b as int) == labels[k]
                },
        decreases n - i,
    {
        let c = s.get_char(i);
        let ghost cur = s@.subrange(start as int, i as int);
        assert(s@.subrange(0, i + 1).drop_last() =~= s@.subrange(0, i as int));
        assert(s@.subrange(0, i + 1).last() == c);
        if c == '.' || c == '\u{3002}' || c == '\u{FF0E}' || c == '\u{FF61}' {
            r.push((start, i));
            proof {
                labels = labels.push(cur);
            }
            start = i + 1;
            assert(s@.subrange(start as int, i + 1) =~= Seq::<char>::empty());
        } else {
            assert(cur.push(c) =~= s@.subrange(start as int, i + 1));
            assert(labels.push(cur).update(labels.len() as int, cur.push(c)) =~= labels.push(
                s@.subrange(start as int, i + 1),
            ));
        }
        i = i + 1;
    }
    assert(s@.subrange(0, n as int) =~= s@);
    r.push((start, n));
    proof {
        labels = labels.push(s@.subrange(start as int, n as int));
    }
    assert(labels =~= split_labels(s@));
    r
}

/// Whether the UTF-8 form of `s` takes more than `limit` octets.
pub fn octets_exceed(s: &str, limit: usize) -> (r: bool)
    ensures
        r == (utf8_len(s@) > limit),
{
    let n = s.unicode_len();
    let mut total: usize = 0;
    let mut i: usize = 0;
    while i < n
        invariant
            n == s@.len(),
            i <= n,
            total == utf8_len(s@.subrange(0, i as int)),
            total <= limit,
        decreases n - i,
    {
        let v = s.get_char(i) as u32;
        let w: usize = if v < 0x80 {
            1
        } else if v < 0x800 {
            2
        } else if v < 0x10000 {
            3
        } else {
            4
        };
        assert(s@.subrange(0, i + 1).drop_last() =~= s@.subrange(0, i as int));
        if w > limit - total {
            proof {
                lemma_utf8_len_prefix(s@, i + 1);
            }
            return true;
        }
        total = total + w;
        i = i + 1;
    }
    assert(s@.subrange(0, n as int) =~= s@);
    false
}

// A prefix takes no more octets than the whole.
proof fn lemma_utf8_len_prefix(s: Seq<char>, k: int)
    requires
        0 <= k <= s.len(),
    ensures
        utf8_len(s.subrange(0, k)) <= utf8_len(s),
    decreases s.len() - k,
{
    if k < s.len() {
        lemma_utf8_len_prefix(s, k + 1);
        assert(s.subrange(0, k + 1).drop_last() =~= s.subrange(0, k));
    } else {
        assert(s.subrange(0, k) =~= s);
    }
}

} // verus!
