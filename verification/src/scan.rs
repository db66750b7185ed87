//! Line-level lexing for the rule files: splitting a line into
//! comma-separated fields, and reading a decimal duration.

use vstd::prelude::*;

verus! {

/// The fields of a line: maximal runs of characters between commas. A line
/// with no comma is one field; every comma ends a field, so `n` commas give
/// `n + 1` fields, empty ones included.
pub open spec fn split_commas(s: Seq<char>) -> Seq<Seq<char>>
    decreases s.len(),
{
    if s.len() == 0 {
        seq![Seq::<char>::empty()]
    } else if s[0] == ',' {
        seq![Seq::<char>::empty()].add(split_commas(s.drop_first()))
    } else {
        let rest = split_commas(s.drop_first());
        seq![seq![s[0]].add(rest[0])].add(rest.drop_first())
    }
}

pub proof fn lemma_split_len(s: Seq<char>)
    ensures
        split_commas(s).len() >= 1,
    decreases s.len(),
{
    if s.len() > 0 {
        lemma_split_len(s.drop_first());
    }
}

/// The first field of `parts`, extended on the left with `pre`, then the
/// remaining fields: the shape of a partially consumed line.
pub open spec fn cons_first(pre: Seq<char>, parts: Seq<Seq<char>>) -> Seq<Seq<char>> {
    seq![pre.add(parts[0])].add(parts.drop_first())
}

pub open spec fn views_of(fs: Seq<String>) -> Seq<Seq<char>> {
    fs.map_values(|f: String| f@)
}

proof fn lemma_cons_first_whole(parts: Seq<Seq<char>>)
    requires
        parts.len() >= 1,
    ensures
        cons_first(Seq::<char>::empty(), parts) == parts,
{
    assert(Seq::<char>::empty().add(parts[0]) =~= parts[0]);
    assert(cons_first(Seq::<char>::empty(), parts) =~~= parts);
}

proof fn lemma_split_unfold(s: Seq<char>, i: int)
    requires
        0 <= i < s.len(),
    ensures
        s[i] == ',' ==> split_commas(s.skip(i)) == seq![Seq::<char>::empty()].add(
            split_commas(s.skip(i + 1)),
        ),
        s[i] != ',' ==> split_commas(s.skip(i)) == seq![
            seq![s[i]].add(split_commas(s.skip(i + 1))[0]),
        ].add(split_commas(s.skip(i + 1)).drop_first()),
{
    assert(s.skip(i).len() == s.len() - i);
    assert(s.skip(i)[0] == s[i]);
    assert(s.skip(i).drop_first() =~= s.skip(i + 1));
}

/// Split a line into its comma-separated fields.
pub fn split_line(s: &str) -> (r: Vec<String>)
    ensures
        views_of(r@) == split_commas(s@),
        r@.len() >= 1,
{
    let n: usize = s.unicode_len();
    let mut fields: Vec<String> = Vec::new();
    let mut start: usize = 0;
    let mut i: usize = 0;
    proof {
        lemma_split_len(s@);
        lemma_cons_first_whole(split_commas(s@));
        assert(s@.subrange(0, 0) =~= Seq::<char>::empty());
        assert(s@.skip(0) =~= s@);
        assert(views_of(fields@).add(cons_first(s@.subrange(0, 0), split_commas(s@.skip(0))))
            =~~= split_commas(s@));
    }
    while i < n
        invariant
            n == s@.len(),
            start <= i <= n,
            split_commas(s@) == views_of(fields@).add(
                cons_first(s@.subrange(start as int, i as int), split_commas(s@.skip(i as int))),
            ),
        decreases n - i,
    {
        let ghost pre = s@.subrange(start as int, i as int);
        let ghost tail = split_commas(s@.skip(i as int + 1));
        proof {
            lemma_split_len(s@.skip(i as int + 1));
            lemma_split_unfold(s@, i as int);
        }
        let c = s.get_char(i);
        if c == ',' {
            let fld = s.substring_char(start, i);
            fields.push(String::from_str(fld));
            proof {
                assert(cons_first(pre, split_commas(s@.skip(i as int)))
                    =~~= seq![pre].add(tail)) by {
                    assert(pre.add(Seq::<char>::empty()) =~= pre);
                    assert(seq![Seq::<char>::empty()].add(tail).drop_first() =~= tail);
                }
                assert(cons_first(s@.subrange(i as int + 1, i as int + 1), tail) =~~= tail) by {
                    lemma_cons_first_whole(tail);
                    assert(s@.subrange(i as int + 1, i as int + 1) =~= Seq::<char>::empty());
                }
                assert(views_of(fields@) =~~= views_of(fields@.drop_last()).push(pre));
                assert(views_of(fields@.drop_last()).add(seq![pre].add(tail))
                    =~~= views_of(fields@).add(tail));
            }
            start = i + 1;
        } else {
            proof {
                let first = seq![s@[i as int]].add(tail[0]);
                assert(split_commas(s@.skip(i as int)).drop_first() =~= tail.drop_first()) by {
                    assert(seq![first].add(tail.drop_first()).drop_first() =~= tail.drop_first());
                }
                assert(split_commas(s@.skip(i as int))[0] == first);
                assert(pre.add(first) =~= s@.subrange(start as int, i as int + 1).add(tail[0]));
                assert(cons_first(pre, split_commas(s@.skip(i as int)))
                    =~~= cons_first(s@.subrange(start as int, i as int + 1), tail));
            }
        }
        i = i + 1;
    }
    let fld = s.substring_char(start, n);
    fields.push(String::from_str(fld));
    proof {
        assert(s@.skip(n as int) =~= Seq::<char>::empty());
        let pre = s@.subrange(start as int, n as int);
        assert(cons_first(pre, split_commas(Seq::<char>::empty())) =~~= seq![pre]) by {
            assert(pre.add(Seq::<char>::empty()) =~= pre);
            assert(seq![Seq::<char>::empty()].drop_first() =~= Seq::<Seq<char>>::empty());
        }
        assert(views_of(fields@) =~~= views_of(fields@.drop_last()).push(pre));
        assert(views_of(fields@.drop_last()).add(seq![pre]) =~~= views_of(fields@));
        assert(views_of(fields@) =~~= split_commas(s@));
    }
    fields
}

pub open spec fn is_digit(c: char) -> bool {
    48 <= c as u32 <= 57
}

pub open spec fn all_digits(s: Seq<char>) -> bool {
    forall|i: int| 0 <= i < s.len() ==> is_digit(#[trigger] s[i])
}

/// Value of a string of decimal digits.
pub open spec fn dec_val(s: Seq<char>) -> int
    decreases s.len(),
{
    if s.len() == 0 {
        0
    } else {
        dec_val(s.drop_last()) * 10 + (s.last() as u32 - 48)
    }
}

/// A non-empty, all-digit string whose value fits in `u32`.
pub open spec fn valid_u32(s: Seq<char>) -> bool {
    s.len() > 0 && all_digits(s) && dec_val(s) <= u32::MAX
}

pub proof fn lemma_dec_val_nonneg(s: Seq<char>)
    requires
        all_digits(s),
    ensures
        dec_val(s) >= 0,
    decreases s.len(),
{
    if s.len() > 0 {
        assert(all_digits(s.drop_last())) by {
            assert(forall|i: int| 0 <= i < s.len() - 1 ==> is_digit(#[trigger] s[i]));
        }
        lemma_dec_val_nonneg(s.drop_last());
        assert(is_digit(s[s.len() - 1]));
    }
}

pub proof fn lemma_dec_val_prefix(s: Seq<char>, i: int)
    requires
        all_digits(s),
        0 <= i <= s.len(),
    ensures
        dec_val(s.take(i)) <= dec_val(s),
    decreases s.len(),
{
    if i == s.len() {
        assert(s.take(i) =~= s);
    } else {
        assert(all_digits(s.drop_last())) by {
            assert(forall|j: int| 0 <= j < s.len() - 1 ==> is_digit(#[trigger] s[j]));
        }
        assert(s.take(i) =~= s.drop_last().take(i));
        lemma_dec_val_prefix(s.drop_last(), i);
        lemma_dec_val_nonneg(s.drop_last());
        assert(is_digit(s[s.len() - 1]));
    }
}

/// Read a whole field as a decimal `u32`; `None` when the field is empty,
/// holds a non-digit, or overflows.
pub fn parse_u32(f: &str) -> (r: Option<u32>)
    ensures
        match r {
            Some(v) => valid_u32(f@) && v as int == dec_val(f@),
            None => !valid_u32(f@),
        },
{
    let n: usize = f.unicode_len();
    if n == 0 {
        return None;
    }
    let mut acc: u64 = 0;
    let mut i: usize = 0;
    while i < n
        invariant
            n == f@.len(),
            i <= n,
            all_digits(f@.take(i as int)),
            acc as int == dec_val(f@.take(i as int)),
            acc <= u32::MAX as u64,
        decreases n - i,
    {
        let c = f.get_char(i);
        let cv: u32 = c as u32;
        if cv < 48 || cv > 57 {
            proof {
                assert(!is_digit(f@[i as int]));
            }
            return None;
        }
        let d: u64 = (cv - 48) as u64;
        acc = acc * 10 + d;
        proof {
            assert(f@.take(i as int + 1).drop_last() =~= f@.take(i as int));
            assert(f@.take(i as int + 1).last() == f@[i as int]);
            assert(all_digits(f@.take(i as int + 1))) by {
                assert(forall|j: int|
                    0 <= j < i as int + 1 ==> is_digit(#[trigger] f@.take(i as int + 1)[j]));
            }
        }
        if acc > u32::MAX as u64 {
            proof {
                if all_digits(f@) {
                    lemma_dec_val_prefix(f@, i as int + 1);
                }
            }
            return None;
        }
        i = i + 1;
    }
    proof {
        assert(f@.take(n as int) =~= f@);
    }
    Some(acc as u32)
}

} // verus!
