//! The order in which project pages are indexed at start-up: by the number
//! that starts their file name (`95_klipr.md` has 95), 50 where there is no
//! such number, files with equal numbers in the order they were listed.
use vstd::prelude::*;
use crate::categories::opt_str_view;
use crate::sorting::lemma_filter_insert;
use crate::text::{parse_u32, parse_u32_spec, chars_of};

verus! {

broadcast use vstd::seq_lib::group_seq_lib_default;

/// The position of the first `_` in `s`, or its length when there is none.
pub open spec fn first_underscore(s: Seq<char>) -> nat
    decreases s.len(),
{
    if s.len() == 0 {
        0
    } else if s[0] == '_' {
        0
    } else {
        1 + first_underscore(s.drop_first())
    }
}

/// The part of `s` before its first `_`, as `s.split('_').next()` gives it.
pub open spec fn first_segment(s: Seq<char>) -> Seq<char> {
    s.take(first_underscore(s) as int)
}

/// The key a project file is ordered by: the number before the first `_` of
/// its file name, or 50 where there is no file name or no such number.
pub open spec fn order_key(file_name: Option<Seq<char>>) -> u32 {
    match file_name {
        Some(n) => match parse_u32_spec(first_segment(n)) {
            Some(v) => v,
            None => 50,
        },
        None => 50,
    }
}

proof fn lemma_first_underscore(s: Seq<char>, i: int)
    requires
        0 <= i <= s.len(),
        forall|j: int| 0 <= j < i ==> s[j] != '_',
        i == s.len() || s[i] == '_',
    ensures
        first_underscore(s) == i,
    decreases i,
{
    if i > 0 {
        lemma_first_underscore(s.drop_first(), i - 1);
    }
}

/// The part of `name` before its first `_`.
pub fn first_segment_of(name: &str) -> (res: String)
    ensures
        res@ == first_segment(name@),
{
    let cs = chars_of(name);
    let n = cs.len();
    let mut i: usize = 0;
    while i < n && cs[i] != '_'
        invariant
            cs@ == name@,
            n == cs@.len(),
            i <= n,
            forall|j: int| 0 <= j < i ==> cs@[j] != '_',
        decreases n - i,
    {
        i += 1;
    }
    proof {
        lemma_first_underscore(name@, i as int);
    }
    name.substring_char(0, i).to_owned()
}

/// The key a project file is ordered by, from its file name if it has one.
pub fn project_order_key(file_name: Option<&str>) -> (res: u32)
    ensures
        res == order_key(match file_name {
            Some(n) => Some(n@),
            None => None,
        }),
{
    match file_name {
        Some(n) => {
            let seg = first_segment_of(n);
            match parse_u32(seg.as_str()) {
                Some(v) => v,
                None => 50,
            }
        },
        None => 50,
    }
}

/// The ordering key of an entry: a path with its file name.
pub open spec fn entry_key<P>(e: (P, Option<String>)) -> u32 {
    order_key(opt_str_view(e.1))
}

/// Selects the entries whose key is `k`.
pub open spec fn with_order_key<P>(k: u32) -> spec_fn((P, Option<String>)) -> bool {
    |e: (P, Option<String>)| entry_key(e) == k
}

/// The entries are in non-decreasing order of their keys.
pub open spec fn sorted_by_order_key<P>(s: Seq<(P, Option<String>)>) -> bool {
    forall|i: int, j: int| 0 <= i < j < s.len() ==> entry_key(#[trigger] s[i]) <= entry_key(#[trigger] s[j])
}

/// `sorted` holds the entries of `entries` in non-decreasing order of key,
/// entries with equal keys in the order they had: a stable sort.
pub open spec fn is_stable_key_sort<P>(
    entries: Seq<(P, Option<String>)>,
    sorted: Seq<(P, Option<String>)>,
) -> bool {
    &&& sorted_by_order_key(sorted)
    &&& forall|k: u32|
        #![trigger sorted.filter(with_order_key::<P>(k))]
        sorted.filter(with_order_key::<P>(k)) == entries.filter(
            with_order_key::<P>(k),
        )
}

/// Sorts project files, each a path with its file name, by their ordering
/// key, keeping files with equal keys in the order given, as
/// `sort_by_cached_key` does.
pub fn sort_project_paths<P>(entries: Vec<(P, Option<String>)>) -> (res: Vec<(P, Option<String>)>)
    ensures
        is_stable_key_sort(entries@, res@),
{
    let ghost input = entries@;
    let mut rest = entries;
    let mut out: Vec<(P, Option<String>)> = Vec::new();
    let mut keys: Vec<u32> = Vec::new();
    let ghost taken: int = 0;
    while rest.len() > 0
        invariant
            0 <= taken <= input.len(),
            rest@ == input.skip(taken),
            keys@.len() == out@.len(),
            forall|j: int| 0 <= j < out@.len() ==> keys@[j] == entry_key(#[trigger] out@[j]),
            sorted_by_order_key(out@),
            forall|k: u32|
                #![trigger out@.filter(with_order_key::<P>(k))]
                out@.filter(with_order_key::<P>(k)) == input.take(taken).filter(
                    with_order_key::<P>(k),
                ),
        decreases rest@.len(),
    {
        let x = rest.remove(0);
        let kx = project_order_key(
            match &x.1 {
                Some(n) => Some(n.as_str()),
                None => None,
            },
        );
        assert(kx == entry_key(x));
        let n = out.len();
        let mut p: usize = 0;
        while p < n && keys[p] <= kx
            invariant
                n == out@.len(),
                keys@.len() == out@.len(),
                p <= n,
                forall|j: int| 0 <= j < p ==> keys@[j] <= kx,
            decreases n - p,
        {
            p += 1;
        }
        let ghost before = out@;
        proof {
            assert forall|j: int| p <= j < before.len() implies kx < entry_key(#[trigger] before[j]) by {
                assert(keys@[p as int] > kx);
                assert(entry_key(before[p as int]) <= entry_key(before[j]));
            }
            assert forall|k: u32|
                #![trigger out@.insert(p as int, x).filter(with_order_key::<P>(k))]
                out@.insert(p as int, x).filter(with_order_key::<P>(k))
                    == input.take(taken + 1).filter(with_order_key::<P>(k)) by {
                let f = with_order_key::<P>(k);
                lemma_filter_insert(before, p as int, x, f);
                assert(input.take(taken + 1) =~= input.take(taken).push(x));
                input.take(taken).lemma_filter_push(x, f);
            }
        }
        out.insert(p, x);
        keys.insert(p, kx);
        proof {
            taken = taken + 1;
            assert(rest@ =~= input.skip(taken));
            assert forall|i: int, j: int| 0 <= i < j < out@.len() implies entry_key(#[trigger] out@[i])
                <= entry_key(#[trigger] out@[j]) by {
                if i < p && j < p {
                    assert(out@[i] == before[i] && out@[j] == before[j]);
                } else if i < p && j == p {
                    assert(out@[i] == before[i]);
                    assert(keys@[i] <= kx);
                } else if i < p {
                    assert(out@[i] == before[i] && out@[j] == before[j - 1]);
                } else if i == p {
                    assert(out@[j] == before[j - 1]);
                } else {
                    assert(out@[i] == before[i - 1] && out@[j] == before[j - 1]);
                }
            }
        }
    }
    assert(input.take(taken) =~= input);
    out
}

} // verus!
