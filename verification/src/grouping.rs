use vstd::prelude::*;

verus! {

/// The distinct values of a sequence, each at its first occurrence, in order.
pub open spec fn distinct_in_order(s: Seq<usize>) -> Seq<usize>
    decreases s.len(),
{
    if s.len() == 0 {
        Seq::empty()
    } else {
        let rest = distinct_in_order(s.drop_last());
        if rest.contains(s.last()) {
            rest
        } else {
            rest.push(s.last())
        }
    }
}

/// The positions at which a sequence holds the given value, in order.
pub open spec fn positions_of(s: Seq<usize>, c: usize) -> Seq<usize>
    decreases s.len(),
{
    if s.len() == 0 {
        Seq::empty()
    } else {
        let rest = positions_of(s.drop_last(), c);
        if s.last() == c {
            rest.push((s.len() - 1) as usize)
        } else {
            rest
        }
    }
}

/// The distinct values are exactly the values.
pub proof fn lemma_distinct_contains(s: Seq<usize>, c: usize)
    ensures
        distinct_in_order(s).contains(c) == s.contains(c),
    decreases s.len(),
{
    if s.len() > 0 {
        let rest = distinct_in_order(s.drop_last());
        lemma_distinct_contains(s.drop_last(), c);
        assert(s.contains(c) == (s.drop_last().contains(c) || s.last() == c)) by {
            if s.contains(c) {
                let i = choose|i: int| 0 <= i < s.len() && s[i] == c;
                if i < s.len() - 1 {
                    assert(s.drop_last()[i] == c);
                    assert(s.drop_last().contains(c));
                }
            }
            if s.drop_last().contains(c) {
                let i = choose|i: int|
                    0 <= i < s.drop_last().len() && s.drop_last()[i] == c;
                assert(s[i] == c);
                assert(s.contains(c));
            }
            if s.last() == c {
                assert(s[s.len() - 1] == c);
                assert(s.contains(c));
            }
        }
        if rest.contains(s.last()) {
            assert(distinct_in_order(s) == rest);
        } else {
            assert(distinct_in_order(s) == rest.push(s.last()));
            assert(rest.push(s.last()).contains(c) == (rest.contains(c) || s.last() == c)) by {
                if rest.contains(c) {
                    let i = choose|i: int| 0 <= i < rest.len() && rest[i] == c;
                    assert(rest.push(s.last())[i] == c);
                    assert(rest.push(s.last()).contains(c));
                }
                if s.last() == c {
                    assert(rest.push(s.last())[rest.len() as int] == c);
                    assert(rest.push(s.last()).contains(c));
                }
                if rest.push(s.last()).contains(c) {
                    let i = choose|i: int|
                        0 <= i < rest.push(s.last()).len() && rest.push(s.last())[i] == c;
                    if i < rest.len() {
                        assert(rest[i] == c);
                        assert(rest.contains(c));
                    }
                }
            }
        }
    }
}

/// No value appears twice among the distinct values.
pub proof fn lemma_distinct_no_dup(s: Seq<usize>)
    ensures
        forall|a: int, b: int|
            0 <= a < b < distinct_in_order(s).len() ==> distinct_in_order(s)[a]
                != distinct_in_order(s)[b],
    decreases s.len(),
{
    if s.len() > 0 {
        lemma_distinct_no_dup(s.drop_last());
        let rest = distinct_in_order(s.drop_last());
        if !rest.contains(s.last()) {
            assert forall|a: int, b: int|
                0 <= a < b < distinct_in_order(s).len() implies distinct_in_order(s)[a]
                != distinct_in_order(s)[b] by {
                if b < rest.len() {
                } else {
                    assert(distinct_in_order(s)[a] == rest[a]);
                    assert(rest.contains(rest[a]));
                }
            }
        }
    }
}

/// A value that never occurs has no positions.
pub proof fn lemma_positions_of_absent(s: Seq<usize>, c: usize)
    requires
        !s.contains(c),
    ensures
        positions_of(s, c) == Seq::<usize>::empty(),
    decreases s.len(),
{
    if s.len() > 0 {
        assert(s[s.len() - 1] != c);
        assert forall|i: int| 0 <= i < s.drop_last().len() implies s.drop_last()[i] != c by {
            assert(s[i] == s.drop_last()[i]);
        }
        lemma_positions_of_absent(s.drop_last(), c);
    }
}

/// The rows of one node grouped by one categorical feature: the distinct codes in
/// first-occurrence order, and for each code the positions of the rows that hold
/// it. Rows are grouped by value over the whole node, never by consecutive runs.
pub struct CategoryGroups {
    pub categories: Vec<usize>,
    pub members: Vec<Vec<usize>>,
}

/// The position of a code in a code list, if it is there.
pub fn index_of_code(codes: &Vec<usize>, code: usize) -> (r: Option<usize>)
    ensures
        match r {
            Some(g) => (g as int) < codes.len() && codes@[g as int] == code,
            None => !codes@.contains(code),
        },
{
    let n = codes.len();
    let mut i: usize = 0;
    while i < n
        invariant
            i <= n,
            n == codes.len(),
            forall|k: int| 0 <= k < i ==> codes@[k] != code,
        decreases n - i,
    {
        if codes[i] == code {
            return Some(i);
        }
        i = i + 1;
    }
    proof {
        assert forall|k: int| 0 <= k < codes@.len() implies codes@[k] != code by {}
    }
    None
}

/// Group row positions by the value of one categorical feature, reading the code
/// of each row from `cats`.
pub fn group_categories(cats: &Vec<usize>) -> (r: CategoryGroups)
    ensures
        r.categories@ == distinct_in_order(cats@),
        r.members.len() == r.categories.len(),
        forall|g: int|
            0 <= g < r.members.len() ==> r.members@[g]@ == positions_of(
                cats@,
                r.categories@[g],
            ),
{
    let n = cats.len();
    let mut categories: Vec<usize> = Vec::new();
    let mut members: Vec<Vec<usize>> = Vec::new();
    let mut i: usize = 0;
    while i < n
        invariant
            i <= n,
            n == cats.len(),
            categories@ == distinct_in_order(cats@.take(i as int)),
            members.len() == categories.len(),
            forall|g: int|
                0 <= g < members.len() ==> members@[g]@ == positions_of(
                    cats@.take(i as int),
                    categories@[g],
                ),
        decreases n - i,
    {
        let ghost prefix = cats@.take(i as int);
        let ghost next_prefix = cats@.take(i + 1);
        proof {
            assert(next_prefix.drop_last() =~= prefix);
            assert(next_prefix.last() == cats@[i as int]);
            lemma_distinct_no_dup(prefix);
        }
        let c = cats[i];
        match index_of_code(&categories, c) {
            Some(g) => {
                proof {
                    assert(categories@[g as int] == c);
                    assert(categories@.contains(c));
                }
                let ghost old_members = members@;
                let mut grp = members.remove(g);
                grp.push(i);
                members.insert(g, grp);
                proof {
                    assert(members@ =~= old_members.update(
                        g as int,
                        members@[g as int],
                    ));
                    assert(members@[g as int]@ =~= old_members[g as int]@.push(i));
                    assert forall|g2: int| 0 <= g2 < members.len() implies members@[g2]@
                        == positions_of(next_prefix, categories@[g2]) by {
                        if g2 == g {
                            assert(positions_of(next_prefix, c) == positions_of(prefix, c).push(
                                i,
                            ));
                        } else {
                            assert(categories@[g2] != c);
                            assert(positions_of(next_prefix, categories@[g2]) == positions_of(
                                prefix,
                                categories@[g2],
                            ));
                        }
                    }
                }
            },
            None => {
                proof {
                    lemma_distinct_contains(prefix, c);
                    lemma_positions_of_absent(prefix, c);
                }
                categories.push(c);
                let mut grp: Vec<usize> = Vec::new();
                grp.push(i);
                members.push(grp);
                proof {
                    assert forall|g2: int| 0 <= g2 < members.len() implies members@[g2]@
                        == positions_of(next_prefix, categories@[g2]) by {
                        if g2 == members.len() - 1 {
                            assert(members@[g2]@ =~= Seq::<usize>::empty().push(i));
                            assert(positions_of(next_prefix, c) == positions_of(prefix, c).push(
                                i,
                            ));
                        } else {
                            assert(categories@[g2] != c) by {
                                if categories@[g2] == c {
                                    assert(distinct_in_order(prefix)[g2] == c);
                                    assert(distinct_in_order(prefix).contains(c));
                                }
                            }
                        }
                    }
                }
            },
        }
        i = i + 1;
    }
    proof {
        assert(cats@.take(n as int) =~= cats@);
    }
    CategoryGroups { categories, members }
}

} // verus!
