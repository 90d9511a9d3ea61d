//! Award pages: one markdown file each, listed newest first, which is the
//! reverse order of their file paths.
use vstd::prelude::*;
use crate::document::ReadError;
use crate::sorting::lemma_filter_insert;
use crate::text::{text_le, text_le_exec, chars_of, lemma_text_le_refl, lemma_text_le_total, lemma_text_le_trans};

verus! {

broadcast use vstd::seq_lib::group_seq_lib_default;

/// A link shown with an award.
#[derive(Clone, Debug)]
pub struct Link {
    pub href: String,
    pub name: String,
}

/// An award shown on the site.
#[derive(Clone, Debug)]
pub struct Award {
    pub id: String,
    pub title: String,
    pub date: Option<String>,
    /// Description as HTML, rendered from the page body.
    pub body: String,
    pub links: Option<Vec<Link>>,
}

/// The awards, newest first.
pub type Awards = Vec<Award>;

/// An award file: its path and what reading it gave.
pub type AwardEntry = (String, Result<Award, ReadError>);

impl Award {
    /// The award of a page that was read: its frontmatter fields with the
    /// rendered body put in; a page that could not be read gives its error.
    pub fn from_file(parsed: Result<(Award, String), ReadError>) -> (res: Result<Award, ReadError>)
        ensures
            match parsed {
                Ok((a, b)) => res == Ok::<Award, ReadError>((Award { body: b, ..a })),
                Err(e) => res == Err::<Award, ReadError>(e),
            },
    {
        match parsed {
            Ok((award, body)) => {
                let mut award = award;
                award.body = body;
                Ok(award)
            },
            Err(e) => Err(e),
        }
    }
}

/// The entries are in non-increasing order of path.
pub open spec fn sorted_by_path_desc(s: Seq<AwardEntry>) -> bool {
    forall|i: int, j: int|
        0 <= i < j < s.len() ==> text_le((#[trigger] s[j]).0@, (#[trigger] s[i]).0@)
}

/// Selects the entries whose path is `k`.
pub open spec fn with_path(k: Seq<char>) -> spec_fn(AwardEntry) -> bool {
    |e: AwardEntry| e.0@ == k
}

/// `sorted` holds the entries of `entries` in non-increasing order of path,
/// entries with equal paths in the order they had.
pub open spec fn is_path_sort(entries: Seq<AwardEntry>, sorted: Seq<AwardEntry>) -> bool {
    &&& sorted_by_path_desc(sorted)
    &&& forall|k: Seq<char>| #[trigger]
        sorted.filter(with_path(k)) == entries.filter(with_path(k))
}

/// The awards of the entries that were read successfully, in order.
pub open spec fn parsed_awards(s: Seq<AwardEntry>) -> Seq<Award> {
    s.filter_map(
        |e: AwardEntry|
            match e.1 {
                Ok(a) => Some(a),
                Err(_) => None,
            },
    )
}

/// Sorts award files by path, last path first.
pub fn sort_award_files(entries: Vec<AwardEntry>) -> (res: Vec<AwardEntry>)
    ensures
        is_path_sort(entries@, res@),
{
    let ghost input = entries@;
    let mut rest = entries;
    let mut out: Vec<AwardEntry> = Vec::new();
    let mut keys: Vec<Vec<char>> = Vec::new();
    let ghost taken: int = 0;
    while rest.len() > 0
        invariant
            0 <= taken <= input.len(),
            rest@ == input.skip(taken),
            keys@.len() == out@.len(),
            forall|j: int| 0 <= j < out@.len() ==> (#[trigger] keys@[j])@ == out@[j].0@,
            sorted_by_path_desc(out@),
            forall|k: Seq<char>| #[trigger]
                out@.filter(with_path(k)) == input.take(taken).filter(with_path(k)),
        decreases rest@.len(),
    {
        let x = rest.remove(0);
        let kx = chars_of(x.0.as_str());
        let n = out.len();
        let mut p: usize = 0;
        while p < n && text_le_exec(&kx, &keys[p])
            invariant
                n == out@.len(),
                keys@.len() == out@.len(),
                kx@ == x.0@,
                p <= n,
                forall|j: int| 0 <= j < out@.len() ==> (#[trigger] keys@[j])@ == out@[j].0@,
                forall|j: int| 0 <= j < p ==> text_le(x.0@, (#[trigger] out@[j]).0@),
            decreases n - p,
        {
            p += 1;
        }
        let ghost before = out@;
        proof {
            assert forall|j: int| p <= j < before.len() implies text_le(
                (#[trigger] before[j]).0@,
                x.0@,
            ) && before[j].0@ != x.0@ by {
                let bp = before[p as int].0@;
                assert(keys@[p as int]@ == bp);
                assert(!text_le(x.0@, bp));
                lemma_text_le_total(x.0@, bp);
                if j == p {
                    lemma_text_le_refl(bp);
                } else {
                    assert(text_le(before[j].0@, bp));
                }
                lemma_text_le_trans(before[j].0@, bp, x.0@);
                if before[j].0@ == x.0@ {
                    assert(text_le(x.0@, bp));
                }
            }
            assert forall|k: Seq<char>| #[trigger]
                before.insert(p as int, x).filter(with_path(k)) == input.take(taken + 1).filter(
                    with_path(k),
                ) by {
                lemma_filter_insert(before, p as int, x, with_path(k));
                assert(input.take(taken + 1) =~= input.take(taken).push(x));
                input.take(taken).lemma_filter_push(x, with_path(k));
            }
        }
        out.insert(p, x);
        keys.insert(p, kx);
        proof {
            taken = taken + 1;
            assert(rest@ =~= input.skip(taken));
            assert forall|i: int, j: int| 0 <= i < j < out@.len() implies text_le(
                (#[trigger] out@[j]).0@,
                (#[trigger] out@[i]).0@,
            ) by {
                if i < p && j < p {
                    assert(out@[i] == before[i] && out@[j] == before[j]);
                } else if i < p && j == p {
                    assert(out@[i] == before[i]);
                } else if i < p {
                    assert(out@[i] == before[i] && out@[j] == before[j - 1]);
                } else if i == p {
                    assert(out@[j] == before[j - 1]);
                } else {
                    assert(out@[i] == before[i - 1] && out@[j] == before[j - 1]);
                }
            }
        }
    }
    assert(input.take(taken) =~= input);
    out
}

/// The awards of a listing of award files, newest (last path) first, leaving
/// out the files that could not be read; no listing gives no awards.
pub fn fetch_awards(listing: Option<Vec<AwardEntry>>) -> (res: Option<Awards>)
    ensures
        match listing {
            None => res is None,
            Some(es) => res matches Some(r) && exists|t: Seq<AwardEntry>|
                is_path_sort(es@, t) && r@ == parsed_awards(t),
        },
{
    match listing {
        None => None,
        Some(entries) => {
            let sorted = sort_award_files(entries);
            let ghost t = sorted@;
            let mut rest = sorted;
            let mut out: Vec<Award> = Vec::new();
            let ghost taken: int = 0;
            while rest.len() > 0
                invariant
                    0 <= taken <= t.len(),
                    rest@ == t.skip(taken),
                    out@ == parsed_awards(t.take(taken)),
                decreases rest@.len(),
            {
                let e = rest.remove(0);
                let ghost e_ghost = e;
                assert(t.take(taken + 1).drop_last() =~= t.take(taken));
                assert(t.take(taken + 1).last() == e_ghost);
                match e.1 {
                    Ok(a) => {
                        out.push(a);
                    },
                    Err(_) => {},
                }
                proof {
                    taken = taken + 1;
                    assert(rest@ =~= t.skip(taken));
                    assert(out@ =~= parsed_awards(t.take(taken)));
                }
            }
            assert(t.take(taken) =~= t);
            Some(out)
        },
    }
}

} // verus!
