//! Ordering the rasterized page files, putting per-page results that arrive
//! in any order back into page order, and gathering the recognized texts.
use vstd::prelude::*;
use crate::page_filter::{PageFilter, DEFAULT_HIGH, DEFAULT_LOW, DEFAULT_THRESHOLD};
use vstd::multiset::{lemma_multiset_empty_len, Multiset};
use vstd::seq_lib::{to_multiset_build, to_multiset_contains, to_multiset_insert, to_multiset_len};

verus! {

/// Lexicographic order on paths, character by character.
pub open spec fn path_le(a: Seq<char>, b: Seq<char>) -> bool
    decreases a.len(),
{
    if a.len() == 0 {
        true
    } else if b.len() == 0 {
        false
    } else if (a[0] as u32) < (b[0] as u32) {
        true
    } else if (a[0] as u32) > (b[0] as u32) {
        false
    } else {
        path_le(a.drop_first(), b.drop_first())
    }
}

/// Each path comes no later than the next ones.
pub open spec fn paths_sorted(s: Seq<String>) -> bool {
    forall|i: int, j: int| 0 <= i < j < s.len() ==> path_le(#[trigger] s[i]@, #[trigger] s[j]@)
}

proof fn lemma_path_le_total(a: Seq<char>, b: Seq<char>)
    ensures
        path_le(a, b) || path_le(b, a),
    decreases a.len(),
{
    if a.len() > 0 && b.len() > 0 && a[0] as u32 == b[0] as u32 {
        lemma_path_le_total(a.drop_first(), b.drop_first());
    }
}

proof fn lemma_path_le_trans(a: Seq<char>, b: Seq<char>, c: Seq<char>)
    requires
        path_le(a, b),
        path_le(b, c),
    ensures
        path_le(a, c),
    decreases a.len(),
{
    if a.len() > 0 && b.len() > 0 && c.len() > 0 && a[0] as u32 == b[0] as u32 && b[0] as u32
        == c[0] as u32 {
        lemma_path_le_trans(a.drop_first(), b.drop_first(), c.drop_first());
    }
}

/// Paths that share a prefix are ordered by what follows it.
pub proof fn lemma_path_le_common_prefix(p: Seq<char>, a: Seq<char>, b: Seq<char>)
    ensures
        path_le(p + a, p + b) == path_le(a, b),
    decreases p.len(),
{
    if p.len() > 0 {
        assert((p + a).drop_first() =~= p.drop_first() + a);
        assert((p + b).drop_first() =~= p.drop_first() + b);
        lemma_path_le_common_prefix(p.drop_first(), a, b);
    }
}

/// A listing of distinct paths, once sorted, is strictly ascending: it holds
/// each path once, each no later than the ones after it.
pub proof fn lemma_sorted_listing_strict(files: Seq<String>, sorted: Seq<String>)
    requires
        files.no_duplicates(),
        sorted.to_multiset() == files.to_multiset(),
        paths_sorted(sorted),
    ensures
        sorted.no_duplicates(),
        forall|i: int, j: int|
            0 <= i < j < sorted.len() ==> path_le(#[trigger] sorted[i]@, #[trigger] sorted[j]@)
                && sorted[i] != sorted[j],
{
    files.lemma_multiset_has_no_duplicates();
    sorted.lemma_multiset_has_no_duplicates_conv();
}

/// Two page files of one directory, named `0001` and `0002` and listed in
/// either order, sort to `0001` then `0002`.
pub proof fn lemma_two_page_listing(
    dir: Seq<char>,
    first: String,
    second: String,
    files: Seq<String>,
    sorted: Seq<String>,
)
    requires
        first@ == dir + "/0001"@,
        second@ == dir + "/0002"@,
        files.to_multiset() == seq![first, second].to_multiset(),
        sorted.to_multiset() == files.to_multiset(),
        paths_sorted(sorted),
    ensures
        sorted == seq![first, second],
{
    broadcast use to_multiset_contains, to_multiset_len;

    reveal_strlit("/0001");
    reveal_strlit("/0002");
    let pair = seq![first, second];
    assert(first@ != second@) by {
        assert(first@[dir.len() as int + 4] != second@[dir.len() as int + 4]);
    }
    assert(pair.no_duplicates());
    pair.lemma_multiset_has_no_duplicates();
    sorted.lemma_multiset_has_no_duplicates_conv();
    assert(sorted.len() == 2) by {
        to_multiset_len(sorted);
        to_multiset_len(pair);
    }
    assert forall|k: int| 0 <= k < 2 implies pair.contains(#[trigger] sorted[k]) by {
        assert(sorted.contains(sorted[k]));
        assert(sorted.to_multiset().count(sorted[k]) > 0);
    }
    assert forall|k: int| 0 <= k < 2 implies sorted.contains(#[trigger] pair[k]) by {
        assert(pair.contains(pair[k]));
        assert(pair.to_multiset().count(pair[k]) > 0);
    }
    assert(sorted.contains(first) && sorted.contains(second)) by {
        assert(pair[0] == first && pair[1] == second);
    }
    if sorted[0] == second {
        assert(path_le(sorted[0]@, sorted[1]@));
        assert(sorted[1] == first);
        lemma_path_le_common_prefix(dir, "/0002"@, "/0001"@);
        reveal_with_fuel(path_le, 6);
        assert(!path_le("/0002"@, "/0001"@));
    }
    assert(sorted =~= pair);
}

/// Whether path `a` sorts no later than path `b`.
pub fn path_le_exec(a: &String, b: &String) -> (r: bool)
    ensures
        r == path_le(a@, b@),
{
    let sa = a.as_str();
    let sb = b.as_str();
    let na = sa.unicode_len();
    let nb = sb.unicode_len();
    let mut i: usize = 0;
    assert(a@.skip(0) =~= a@ && b@.skip(0) =~= b@);
    while i < na && i < nb
        invariant
            na == a@.len(),
            nb == b@.len(),
            sa@ == a@,
            sb@ == b@,
            i <= na,
            i <= nb,
            path_le(a@, b@) == path_le(a@.skip(i as int), b@.skip(i as int)),
        decreases na - i,
    {
        let ca = sa.get_char(i);
        let cb = sb.get_char(i);
        if (ca as u32) < (cb as u32) {
            return true;
        }
        if (ca as u32) > (cb as u32) {
            return false;
        }
        proof {
            assert(a@.skip(i as int).drop_first() =~= a@.skip(i as int + 1));
            assert(b@.skip(i as int).drop_first() =~= b@.skip(i as int + 1));
        }
        i = i + 1;
    }
    i == na
}

/// Sorts file paths lexicographically: the result holds the same paths, each
/// as often as before, in order.
pub fn sort_paths(files: Vec<String>) -> (r: Vec<String>)
    ensures
        paths_sorted(r@),
        r@.to_multiset() == files@.to_multiset(),
{
    let mut rest = files;
    let mut out: Vec<String> = Vec::new();
    proof {
        broadcast use to_multiset_build, to_multiset_insert;
        to_multiset_len(out@);
        lemma_multiset_empty_len(out@.to_multiset());
    }
    while rest.len() > 0
        invariant
            paths_sorted(out@),
            out@.to_multiset().add(rest@.to_multiset()) == files@.to_multiset(),
        decreases rest.len(),
    {
        let ghost before = rest@;
        let x = rest.pop().unwrap();
        proof {
            assert(before =~= rest@.push(x));
            to_multiset_build(rest@, x);
        }
        let mut j: usize = 0;
        while j < out.len() && path_le_exec(&out[j], &x)
            invariant
                j <= out@.len(),
                forall|k: int| 0 <= k < j ==> path_le(#[trigger] out@[k]@, x@),
            decreases out@.len() - j,
        {
            j = j + 1;
        }
        let ghost old_out = out@;
        proof {
            if j < out@.len() {
                lemma_path_le_total(out@[j as int]@, x@);
                assert forall|k: int| j <= k < out@.len() implies path_le(x@, #[trigger] out@[k]@) by {
                    if k > j {
                        lemma_path_le_trans(x@, out@[j as int]@, out@[k]@);
                    }
                }
            }
        }
        out.insert(j, x);
        proof {
            to_multiset_insert(old_out, j as int, x);
            assert(out@ == old_out.insert(j as int, x));
            assert forall|a: int, b: int| 0 <= a < b < out@.len() implies path_le(
                #[trigger] out@[a]@,
                #[trigger] out@[b]@,
            ) by {
                if a < j && b == j {
                } else if a < j && b > j {
                    assert(path_le(old_out[a]@, x@));
                    assert(path_le(x@, old_out[b - 1]@));
                    lemma_path_le_trans(old_out[a]@, x@, old_out[b - 1]@);
                } else if a == j {
                } else if a < j {
                } else {
                }
            }
        }
    }
    proof {
        to_multiset_len(rest@);
        lemma_multiset_empty_len(rest@.to_multiset());
        assert(out@.to_multiset().add(Multiset::empty()) =~= out@.to_multiset());
    }
    out
}


/// The OCR language used unless another is given.
pub const DEFAULT_LANGUAGE: &'static str = "eng";

/// Where a run reads and writes, and how it filters and recognizes pages.
pub struct PipelineConfig {
    /// The PDF to rasterize.
    pub pdf_path: String,
    /// The directory that receives the page images; it should hold nothing
    /// else, since every file in it is taken for a page.
    pub work_dir: String,
    /// The OCR language code.
    pub language: String,
    /// The page filter.
    pub filter: PageFilter,
}

impl PipelineConfig {
    /// A configuration for `pdf_path` and `work_dir`, with the default
    /// language and the standard filter.
    pub fn new(pdf_path: String, work_dir: String) -> (r: PipelineConfig)
        ensures
            r.pdf_path == pdf_path,
            r.work_dir == work_dir,
            r.language@ == DEFAULT_LANGUAGE@,
            r.filter.wf(),
            r.filter.threshold == DEFAULT_THRESHOLD,
            r.filter.low == DEFAULT_LOW,
            r.filter.high == DEFAULT_HIGH,
    {
        PipelineConfig {
            pdf_path,
            work_dir,
            language: DEFAULT_LANGUAGE.to_owned(),
            filter: PageFilter::standard(),
        }
    }
}

/// Why a page gave no text.
#[derive(PartialEq, Eq, Structural, Clone, Copy, Debug)]
pub enum PageError {
    /// The image file could not be decoded.
    ImageDecode,
    /// The image is too large for the edge detector: a side above
    /// `i32::MAX`, or more pixels than `u32` can count.
    ImageTooLarge,
    /// The OCR engine could not be started.
    EngineInit,
    /// The OCR engine could not load the image.
    ImageLoad,
    /// Recognition itself failed.
    Recognition,
}

/// What became of one page file.
#[derive(Debug)]
pub enum PageOutcome {
    /// The filter found no text on the page; it is left out.
    NoText,
    /// The text that OCR recognized on the page.
    Recognized(String),
    /// The page could not be read; its error is kept, not dropped.
    Failed(PageError),
}

/// Some arrival at position `from` or later carries page index `i`.
pub open spec fn arrived_from<T>(d: Seq<(usize, T)>, from: int, i: int) -> bool {
    exists|k: int| from <= k < d.len() && (#[trigger] d[k]).0 == i
}

/// The outcome of a page whose screening settles it without OCR: a failure
/// to read or screen the image is kept as that failure, and a page without
/// text is left out. `None` when the page holds text and OCR must run.
pub fn outcome_before_ocr(screened: Result<bool, PageError>) -> (r: Option<PageOutcome>)
    ensures
        screened matches Err(e) ==> r == Some(PageOutcome::Failed(e)),
        screened == Ok::<bool, PageError>(false) ==> r == Some(PageOutcome::NoText),
        screened == Ok::<bool, PageError>(true) ==> r is None,
{
    match screened {
        Err(e) => Some(PageOutcome::Failed(e)),
        Ok(false) => Some(PageOutcome::NoText),
        Ok(true) => None,
    }
}

/// The outcome of a page with text from its OCR result: the recognized
/// text, or the OCR failure, never an empty text in its place.
pub fn outcome_of_ocr(ocr: Result<String, PageError>) -> (r: PageOutcome)
    ensures
        ocr matches Ok(t) ==> r == PageOutcome::Recognized(t),
        ocr matches Err(e) ==> r == PageOutcome::Failed(e),
{
    match ocr {
        Ok(t) => PageOutcome::Recognized(t),
        Err(e) => PageOutcome::Failed(e),
    }
}

/// Each page index below `n` arrives exactly once, and no other index does.
pub open spec fn arrivals_complete<T>(n: nat, d: Seq<(usize, T)>) -> bool {
    &&& forall|k: int| 0 <= k < d.len() ==> (#[trigger] d[k]).0 < n
    &&& forall|k: int, l: int| 0 <= k < l < d.len() ==> (#[trigger] d[k]).0 != (#[trigger] d[l]).0
    &&& forall|i: int| 0 <= i < n ==> #[trigger] arrived_from(d, 0, i)
}

/// `v` holds `n` values, and at each arrival's page index that arrival's
/// value.
pub open spec fn placed<T>(n: nat, d: Seq<(usize, T)>, v: Seq<T>) -> bool {
    &&& v.len() == n
    &&& forall|k: int| 0 <= k < d.len() ==> v[(#[trigger] d[k]).0 as int] == d[k].1
}

/// Puts results that arrive in any order, each tagged with its page index,
/// back into page order. `None` unless every index below `n` arrives exactly
/// once and no other does.
pub fn collate<T>(n: usize, done: Vec<(usize, T)>) -> (r: Option<Vec<T>>)
    ensures
        r is Some <==> arrivals_complete(n as nat, done@),
        r matches Some(v) ==> placed(n as nat, done@, v@),
{
    // The value of page `i` waits in slot `n - 1 - i`, so that popping the
    // slots hands the pages out first to last.
    let mut slots: Vec<Option<T>> = Vec::new();
    let mut j: usize = 0;
    while j < n
        invariant
            j <= n,
            slots@.len() == j,
            forall|k: int| 0 <= k < j ==> (#[trigger] slots@[k]) is None,
        decreases n - j,
    {
        slots.push(None);
        j = j + 1;
    }
    let ghost orig = done@;
    let mut rest = done;
    while rest.len() > 0
        invariant
            slots@.len() == n,
            orig == done@,
            rest@ == orig.take(rest@.len() as int),
            rest@.len() <= orig.len(),
            forall|k: int|
                rest@.len() <= k < orig.len() ==> (#[trigger] orig[k]).0 < n && slots@[n - 1
                    - orig[k].0] == Some(orig[k].1),
            forall|k: int, l: int|
                rest@.len() <= k < l < orig.len() ==> (#[trigger] orig[k]).0 != (#[trigger] orig[l]).0,
            forall|i: int|
                0 <= i < n && (#[trigger] slots@[n - 1 - i]) is Some ==> arrived_from(
                    orig,
                    rest@.len() as int,
                    i,
                ),
        decreases rest@.len(),
    {
        let ghost c = rest@.len() - 1;
        let (i, v) = rest.pop().unwrap();
        assert(orig[c] == (i, v));
        if i >= n {
            assert(orig[c].0 >= n);
            assert(!arrivals_complete(n as nat, done@));
            return None;
        }
        let pos = n - 1 - i;
        if slots[pos].is_some() {
            proof {
                let k = choose|k: int| rest@.len() < k < orig.len() && (#[trigger] orig[k]).0 == i;
                assert(orig[c].0 == orig[k].0);
                assert(!arrivals_complete(n as nat, done@));
            }
            return None;
        }
        slots.set(pos, Some(v));
        proof {
            assert forall|ii: int| 0 <= ii < n && (#[trigger] slots@[n - 1 - ii]) is Some implies arrived_from(
                orig,
                rest@.len() as int,
                ii,
            ) by {
                if ii == i {
                    assert(orig[c].0 == ii);
                } else {
                    let k = choose|k: int| rest@.len() + 1 <= k < orig.len() && (#[trigger] orig[k]).0 == ii;
                    assert(orig[k].0 == ii);
                }
            }
        }
    }
    assert(orig.skip(0) =~= orig);
    let ghost full = slots@;
    let mut out: Vec<T> = Vec::new();
    while slots.len() > 0
        invariant
            out@.len() + slots@.len() == n,
            slots@ == full.take(slots@.len() as int),
            full.len() == n,
            orig == done@,
            forall|k: int|
                0 <= k < orig.len() ==> (#[trigger] orig[k]).0 < n && full[n - 1 - orig[k].0]
                    == Some(orig[k].1),
            forall|k: int, l: int|
                0 <= k < l < orig.len() ==> (#[trigger] orig[k]).0 != (#[trigger] orig[l]).0,
            forall|i: int|
                0 <= i < n && (#[trigger] full[n - 1 - i]) is Some ==> arrived_from(orig, 0, i),
            forall|i: int| 0 <= i < out@.len() ==> full[n - 1 - i] == Some(#[trigger] out@[i]),
        decreases slots@.len(),
    {
        let slot = slots.pop().unwrap();
        match slot {
            Some(v) => {
                out.push(v);
            },
            None => {
                proof {
                    let i = out@.len() as int;
                    assert(full[n - 1 - i] is None);
                    if arrivals_complete(n as nat, orig) {
                        assert(arrived_from(orig, 0, i));
                        let k = choose|k: int| 0 <= k < orig.len() && (#[trigger] orig[k]).0 == i;
                        assert(full[n - 1 - orig[k].0] is Some);
                    }
                }
                return None;
            },
        }
    }
    proof {
        assert forall|i: int| 0 <= i < n implies #[trigger] arrived_from(orig, 0, i) by {
            assert(full[n - 1 - i] == Some(out@[i]));
        }
        assert forall|k: int| 0 <= k < orig.len() implies out@[(#[trigger] orig[k]).0 as int] == orig[k].1 by {
            assert(full[n - 1 - orig[k].0] == Some(out@[orig[k].0 as int]));
        }
    }
    Some(out)
}

/// The failed pages among `s`, each with its index and error, in order.
pub open spec fn failures_of(s: Seq<PageOutcome>) -> Seq<(usize, PageError)>
    decreases s.len(),
{
    if s.len() == 0 {
        Seq::empty()
    } else {
        failures_of(s.drop_last()) + match s.last() {
            PageOutcome::Failed(e) => seq![((s.len() - 1) as usize, e)],
            _ => Seq::empty(),
        }
    }
}

/// The pages that failed, with their indices and errors, in page order, so
/// that a caller can choose to skip them or to abort the batch.
pub fn failed_pages(outcomes: &Vec<PageOutcome>) -> (r: Vec<(usize, PageError)>)
    ensures
        r@ == failures_of(outcomes@),
{
    let mut out: Vec<(usize, PageError)> = Vec::new();
    let mut i: usize = 0;
    while i < outcomes.len()
        invariant
            i <= outcomes@.len(),
            out@ == failures_of(outcomes@.take(i as int)),
        decreases outcomes@.len() - i,
    {
        assert(outcomes@.take(i as int + 1).drop_last() =~= outcomes@.take(i as int));
        match &outcomes[i] {
            PageOutcome::Failed(e) => {
                out.push((i, *e));
            },
            _ => {},
        }
        proof {
            let s = outcomes@.take(i as int + 1);
            assert(s.last() == outcomes@[i as int]);
            assert(out@ =~= failures_of(s));
        }
        i = i + 1;
    }
    assert(outcomes@.take(outcomes@.len() as int) =~= outcomes@);
    out
}

/// The recognized texts among `s`, in order.
pub open spec fn texts_of(s: Seq<PageOutcome>) -> Seq<String>
    decreases s.len(),
{
    if s.len() == 0 {
        Seq::empty()
    } else {
        texts_of(s.drop_last()) + match s.last() {
            PageOutcome::Recognized(t) => seq![t],
            _ => Seq::empty(),
        }
    }
}

/// The recognized texts of the pages, in page order; pages without text and
/// failed pages give none.
pub fn recognized_texts(outcomes: &Vec<PageOutcome>) -> (r: Vec<String>)
    ensures
        r@ == texts_of(outcomes@),
{
    let mut out: Vec<String> = Vec::new();
    let mut i: usize = 0;
    while i < outcomes.len()
        invariant
            i <= outcomes@.len(),
            out@ == texts_of(outcomes@.take(i as int)),
        decreases outcomes@.len() - i,
    {
        assert(outcomes@.take(i as int + 1).drop_last() =~= outcomes@.take(i as int));
        match &outcomes[i] {
            PageOutcome::Recognized(t) => {
                out.push(t.clone());
            },
            _ => {},
        }
        proof {
            let s = outcomes@.take(i as int + 1);
            assert(s.last() == outcomes@[i as int]);
            assert(out@ =~= texts_of(s));
        }
        i = i + 1;
    }
    assert(outcomes@.take(outcomes@.len() as int) =~= outcomes@);
    out
}

/// Each value paired with its position.
pub open spec fn indexed<T>(s: Seq<T>) -> Seq<(usize, T)> {
    Seq::new(s.len(), |i: int| (i as usize, s[i]))
}

/// Any rearrangement of the results tagged with their page indices is a
/// complete set of arrivals, so collating it succeeds.
pub proof fn lemma_rearranged_arrivals_complete<T>(pages: Seq<T>, arrivals: Seq<(usize, T)>)
    requires
        pages.len() <= usize::MAX,
        arrivals.to_multiset() == indexed(pages).to_multiset(),
    ensures
        arrivals_complete(pages.len(), arrivals),
{
    broadcast use to_multiset_contains;

    let ix = indexed(pages);
    assert forall|k: int| 0 <= k < arrivals.len() implies exists|j: int|
        0 <= j < pages.len() && #[trigger] arrivals[k] == (j as usize, pages[j]) by {
        assert(arrivals.contains(arrivals[k]));
        assert(ix.to_multiset().count(arrivals[k]) > 0);
        assert(ix.contains(arrivals[k]));
        let j = choose|j: int| 0 <= j < ix.len() && ix[j] == arrivals[k];
        assert(arrivals[k] == (j as usize, pages[j]));
    }
    assert(ix.no_duplicates()) by {
        assert forall|i: int, j: int| 0 <= i < ix.len() && 0 <= j < ix.len() && i != j implies ix[i]
            != ix[j] by {
            assert(ix[i].0 == i as usize && ix[j].0 == j as usize);
        }
    }
    ix.lemma_multiset_has_no_duplicates();
    arrivals.lemma_multiset_has_no_duplicates_conv();
    assert forall|k: int, l: int| 0 <= k < l < arrivals.len() implies (#[trigger] arrivals[k]).0
        != (#[trigger] arrivals[l]).0 by {
        let jk = choose|j: int| 0 <= j < pages.len() && #[trigger] arrivals[k] == (j as usize, pages[j]);
        let jl = choose|j: int| 0 <= j < pages.len() && #[trigger] arrivals[l] == (j as usize, pages[j]);
        if arrivals[k].0 == arrivals[l].0 {
            assert(jk == jl);
            assert(arrivals[k] == arrivals[l]);
        }
    }
    assert forall|k: int| 0 <= k < arrivals.len() implies (#[trigger] arrivals[k]).0 < pages.len() by {
        let j = choose|j: int| 0 <= j < pages.len() && #[trigger] arrivals[k] == (j as usize, pages[j]);
    }
    assert forall|i: int| 0 <= i < pages.len() implies #[trigger] arrived_from(arrivals, 0, i) by {
        let item = ix[i];
        assert(ix.contains(item));
        assert(arrivals.to_multiset().count(item) > 0);
        assert(arrivals.contains(item));
        let k = choose|k: int| 0 <= k < arrivals.len() && arrivals[k] == item;
        assert(arrivals[k].0 == i);
    }
}

/// Page order is kept whatever order the workers finish in: when the results
/// of pages `pages` arrive in any order (any rearrangement of the results
/// tagged with their page indices), the collated sequence is `pages` itself.
pub proof fn lemma_collation_keeps_page_order<T>(
    pages: Seq<T>,
    arrivals: Seq<(usize, T)>,
    v: Seq<T>,
)
    requires
        pages.len() <= usize::MAX,
        arrivals.to_multiset() == indexed(pages).to_multiset(),
        placed(pages.len(), arrivals, v),
    ensures
        v == pages,
{
    broadcast use to_multiset_contains;

    assert forall|i: int| 0 <= i < pages.len() implies v[i] == pages[i] by {
        let item = indexed(pages)[i];
        assert(indexed(pages).contains(item));
        assert(arrivals.to_multiset().count(item) > 0);
        assert(arrivals.contains(item));
        let k = choose|k: int| 0 <= k < arrivals.len() && arrivals[k] == item;
        assert(v[arrivals[k].0 as int] == arrivals[k].1);
    }
    assert(v =~= pages);
}

proof fn lemma_texts_concat(a: Seq<PageOutcome>, b: Seq<PageOutcome>)
    ensures
        texts_of(a + b) == texts_of(a) + texts_of(b),
    decreases b.len(),
{
    if b.len() == 0 {
        assert(a + b =~= a);
        assert(texts_of(a) + texts_of(b) =~= texts_of(a));
    } else {
        lemma_texts_concat(a, b.drop_last());
        assert((a + b).drop_last() =~= a + b.drop_last());
        assert((a + b).last() == b.last());
        assert(texts_of(a + b) =~= texts_of(a) + texts_of(b));
    }
}

/// A failure on one page leaves the others' texts alone: the texts that
/// remain when page `j` fails are exactly the texts of the pages before it
/// followed by those of the pages after it, as they were without the failure.
pub proof fn lemma_failure_isolated(s: Seq<PageOutcome>, j: int, e: PageError)
    requires
        0 <= j < s.len(),
    ensures
        texts_of(s.update(j, PageOutcome::Failed(e))) == texts_of(s.take(j)) + texts_of(
            s.skip(j + 1),
        ),
        texts_of(s) == texts_of(s.take(j)) + texts_of(seq![s[j]]) + texts_of(s.skip(j + 1)),
{
    let f = PageOutcome::Failed(e);
    let t = s.update(j, f);
    assert(t =~= s.take(j) + seq![f] + s.skip(j + 1));
    assert(s =~= s.take(j) + seq![s[j]] + s.skip(j + 1));
    lemma_texts_concat(s.take(j) + seq![f], s.skip(j + 1));
    lemma_texts_concat(s.take(j), seq![f]);
    lemma_texts_concat(s.take(j) + seq![s[j]], s.skip(j + 1));
    lemma_texts_concat(s.take(j), seq![s[j]]);
    let one = seq![f];
    assert(one.drop_last() =~= Seq::<PageOutcome>::empty());
    assert(one.last() == f);
    assert(texts_of(Seq::<PageOutcome>::empty()) =~= Seq::<String>::empty());
    assert(texts_of(one) =~= Seq::<String>::empty());
    assert(texts_of(s.take(j)) + Seq::<String>::empty() =~= texts_of(s.take(j)));
}

} // verus!
