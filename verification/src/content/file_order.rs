//! Loading does not depend on the order the content files come in: what a
//! load reads is a set of independent items, the site data, the pages and
//! the posts, that must not clash with one another.
use vstd::prelude::*;

use crate::content::embedded::{
    file_role, lemma_page_path_none, lemma_post_path_none, page_path, post_path, scan, scan_step, scanned_pages,
    scanned_posts, serves_load, spec_load, spec_validate_site, visible_posts, FileRole, ParseOutcomeView,
    RepositoryView, ScanView, SiteDataView,
};
use crate::content::order::{
    lemma_modules_in_order_unique, lemma_post_before_asymmetric, lemma_post_before_irreflexive, pages_in_order,
    post_before, posts_in_order,
};
use crate::bindings::utf8_error;
use crate::text::{lemma_seq_lt_asymmetric, lemma_seq_lt_irreflexive, seq_lt};
use crate::content::error::ContentErrorView;
use crate::content::markdown::{spec_document_parts, spec_page, spec_post};
use crate::content::model::{PageView, PostView};

verus! {

/// What one content file holds, read on its own.
pub enum FileItem {
    Data(SiteDataView),
    Page(PageView),
    Post(PostView),
}

/// A content file read on its own: its text must be UTF-8; the site data
/// must parse; a page or post must split, parse and build; any other file
/// is an error.
pub open spec fn file_item(path: Seq<char>, bytes: Seq<u8>, outcome: ParseOutcomeView) -> Result<
    FileItem,
    ContentErrorView,
> {
    if !vstd::utf8::valid_utf8(bytes) {
        Err(ContentErrorView::Utf8 { path, source: utf8_error(bytes) })
    } else {
        let text = vstd::utf8::decode_utf8(bytes);
        match file_role(path) {
            FileRole::Data => match outcome {
                ParseOutcomeView::SiteData(Ok(d)) => Ok(FileItem::Data(d)),
                ParseOutcomeView::SiteData(Err(source)) => Err(ContentErrorView::Json { path, source }),
                _ => Err(ContentErrorView::MissingData),
            },
            FileRole::Page => match spec_document_parts(path, text) {
                Err(e) => Err(e),
                Ok((slug, _, _)) => match outcome {
                    ParseOutcomeView::Page(frontmatter, html) => match spec_page(path, slug, frontmatter, html) {
                        Err(e) => Err(e),
                        Ok(page) => Ok(FileItem::Page(page)),
                    },
                    _ => Err(ContentErrorView::MissingData),
                },
            },
            FileRole::Post => match spec_document_parts(path, text) {
                Err(e) => Err(e),
                Ok((slug, _, _)) => match outcome {
                    ParseOutcomeView::Post(frontmatter, html) => match spec_post(path, slug, frontmatter, html) {
                        Err(e) => Err(e),
                        Ok(post) => Ok(FileItem::Post(post)),
                    },
                    _ => Err(ContentErrorView::MissingData),
                },
            },
            FileRole::Other => Err(ContentErrorView::UnexpectedFile { path }),
        }
    }
}

/// Whether an item can join a scan state: a second site data file, or a
/// page or post whose slug its kind already has, cannot.
pub open spec fn fits(st: ScanView, item: FileItem) -> bool {
    match item {
        FileItem::Data(_) => st.data is None,
        FileItem::Page(p) => page_path(st.pages, p.slug) is None,
        FileItem::Post(p) => post_path(st.posts, p.slug) is None,
    }
}

/// A scan state with one more item, read from `path`.
pub open spec fn add_item(st: ScanView, item: FileItem, path: Seq<char>) -> ScanView {
    match item {
        FileItem::Data(d) => ScanView { data: Some(d), pages: st.pages, posts: st.posts },
        FileItem::Page(p) => ScanView { data: st.data, pages: st.pages.push((p, path)), posts: st.posts },
        FileItem::Post(p) => ScanView { data: st.data, pages: st.pages, posts: st.posts.push((p, path)) },
    }
}

/// Reading one file is reading its item and adding it where it fits.
proof fn lemma_step_reads_item(st: ScanView, path: Seq<char>, bytes: Seq<u8>, outcome: ParseOutcomeView)
    ensures
        scan_step(st, path, bytes, outcome) is Ok <==> (file_item(path, bytes, outcome) is Ok && fits(
            st,
            file_item(path, bytes, outcome)->Ok_0,
        )),
        scan_step(st, path, bytes, outcome) is Ok ==> scan_step(st, path, bytes, outcome)->Ok_0 == add_item(
            st,
            file_item(path, bytes, outcome)->Ok_0,
            path,
        ),
{
}

/// The files paired with the parsers' outcomes for them.
pub open spec fn file_pairs(files: Seq<(Seq<char>, Seq<u8>)>, outcomes: Seq<ParseOutcomeView>) -> Seq<
    ((Seq<char>, Seq<u8>), ParseOutcomeView),
> {
    Seq::new(files.len(), |i: int| (files[i], outcomes[i]))
}

/// The item of a file paired with its outcome.
pub open spec fn pair_item(pair: ((Seq<char>, Seq<u8>), ParseOutcomeView)) -> Result<FileItem, ContentErrorView> {
    file_item(pair.0.0, pair.0.1, pair.1)
}

/// Two items that cannot both be read: two site data files, or two pages
/// or two posts with one slug.
pub open spec fn clash(a: FileItem, b: FileItem) -> bool {
    match (a, b) {
        (FileItem::Data(_), FileItem::Data(_)) => true,
        (FileItem::Page(p), FileItem::Page(q)) => p.slug == q.slug,
        (FileItem::Post(p), FileItem::Post(q)) => p.slug == q.slug,
        _ => false,
    }
}

/// The first `n` files each read on their own, and no two of their items
/// clash.
pub open spec fn items_fit(pairs: Seq<((Seq<char>, Seq<u8>), ParseOutcomeView)>, n: int) -> bool {
    &&& forall|i: int| 0 <= i < n ==> pair_item(#[trigger] pairs[i]) is Ok
    &&& forall|i: int, j: int| 0 <= i < j < n ==> !clash(
        pair_item(#[trigger] pairs[i])->Ok_0,
        pair_item(#[trigger] pairs[j])->Ok_0,
    )
}

/// One of the first `n` files holds `item`.
pub open spec fn reads(pairs: Seq<((Seq<char>, Seq<u8>), ParseOutcomeView)>, n: int, item: FileItem) -> bool {
    exists|i: int| 0 <= i < n && pair_item(#[trigger] pairs[i]) == Ok::<FileItem, ContentErrorView>(item)
}

/// A scan state holds page `p`.
pub open spec fn has_page(st: ScanView, p: PageView) -> bool {
    exists|k: int| 0 <= k < st.pages.len() && (#[trigger] st.pages[k]).0 == p
}

/// A scan state holds post `p`.
pub open spec fn has_post(st: ScanView, p: PostView) -> bool {
    exists|k: int| 0 <= k < st.posts.len() && (#[trigger] st.posts[k]).0 == p
}

/// A scan state holds exactly the items of the first `n` files.
pub open spec fn holds_items(st: ScanView, pairs: Seq<((Seq<char>, Seq<u8>), ParseOutcomeView)>, n: int) -> bool {
    &&& forall|p: PageView|
        #![trigger has_page(st, p)]
        #![trigger reads(pairs, n, FileItem::Page(p))]
        has_page(st, p) <==> reads(pairs, n, FileItem::Page(p))
    &&& forall|p: PostView|
        #![trigger has_post(st, p)]
        #![trigger reads(pairs, n, FileItem::Post(p))]
        has_post(st, p) <==> reads(pairs, n, FileItem::Post(p))
    &&& forall|d: SiteDataView| st.data == Some(d) ==> #[trigger] reads(pairs, n, FileItem::Data(d))
    &&& st.data is None ==> forall|d: SiteDataView| !#[trigger] reads(pairs, n, FileItem::Data(d))
}

proof fn lemma_page_path_some(pages: Seq<(PageView, Seq<char>)>, slug: Seq<char>)
    requires
        page_path(pages, slug) is Some,
    ensures
        exists|k: int| 0 <= k < pages.len() && (#[trigger] pages[k]).0.slug == slug,
    decreases pages.len(),
{
    if pages.last().0.slug != slug {
        lemma_page_path_some(pages.drop_last(), slug);
        let k = choose|k: int| 0 <= k < pages.drop_last().len() && (#[trigger] pages.drop_last()[k]).0.slug == slug;
        assert(pages[k] == pages.drop_last()[k]);
    } else {
        assert(pages[pages.len() - 1] == pages.last());
    }
}

proof fn lemma_post_path_some(posts: Seq<(PostView, Seq<char>)>, slug: Seq<char>)
    requires
        post_path(posts, slug) is Some,
    ensures
        exists|k: int| 0 <= k < posts.len() && (#[trigger] posts[k]).0.slug == slug,
    decreases posts.len(),
{
    if posts.last().0.slug != slug {
        lemma_post_path_some(posts.drop_last(), slug);
        let k = choose|k: int| 0 <= k < posts.drop_last().len() && (#[trigger] posts.drop_last()[k]).0.slug == slug;
        assert(posts[k] == posts.drop_last()[k]);
    } else {
        assert(posts[posts.len() - 1] == posts.last());
    }
}

/// Against what the first `m` files hold, an item fits exactly when it
/// clashes with none of their items.
proof fn lemma_fits_without_clash(
    st: ScanView,
    pairs: Seq<((Seq<char>, Seq<u8>), ParseOutcomeView)>,
    m: int,
    item: FileItem,
)
    requires
        0 <= m <= pairs.len(),
        items_fit(pairs, m),
        holds_items(st, pairs, m),
    ensures
        fits(st, item) <==> forall|i: int| 0 <= i < m ==> !clash(pair_item(#[trigger] pairs[i])->Ok_0, item),
{
    match item {
        FileItem::Data(d) => {
            if let Some(d0) = st.data {
                assert(reads(pairs, m, FileItem::Data(d0)));
                let i = choose|i: int| 0 <= i < m && pair_item(#[trigger] pairs[i]) == Ok::<FileItem, ContentErrorView>(
                    FileItem::Data(d0),
                );
                assert(clash(pair_item(pairs[i])->Ok_0, item));
            } else {
                assert forall|i: int| 0 <= i < m implies !clash(pair_item(#[trigger] pairs[i])->Ok_0, item) by {
                    if let FileItem::Data(d1) = pair_item(pairs[i])->Ok_0 {
                        assert(reads(pairs, m, FileItem::Data(d1)));
                    }
                }
            }
        },
        FileItem::Page(p) => {
            if page_path(st.pages, p.slug) is Some {
                lemma_page_path_some(st.pages, p.slug);
                let k = choose|k: int| 0 <= k < st.pages.len() && (#[trigger] st.pages[k]).0.slug == p.slug;
                let q = st.pages[k].0;
                assert(has_page(st, q));
                assert(reads(pairs, m, FileItem::Page(q)));
                let i = choose|i: int| 0 <= i < m && pair_item(#[trigger] pairs[i]) == Ok::<FileItem, ContentErrorView>(
                    FileItem::Page(q),
                );
                assert(clash(pair_item(pairs[i])->Ok_0, item));
            } else {
                lemma_page_path_none(st.pages, p.slug);
                assert forall|i: int| 0 <= i < m implies !clash(pair_item(#[trigger] pairs[i])->Ok_0, item) by {
                    if let FileItem::Page(q) = pair_item(pairs[i])->Ok_0 {
                        assert(reads(pairs, m, FileItem::Page(q)));
                        assert(has_page(st, q));
                        let k = choose|k: int| 0 <= k < st.pages.len() && (#[trigger] st.pages[k]).0 == q;
                    }
                }
            }
        },
        FileItem::Post(p) => {
            if post_path(st.posts, p.slug) is Some {
                lemma_post_path_some(st.posts, p.slug);
                let k = choose|k: int| 0 <= k < st.posts.len() && (#[trigger] st.posts[k]).0.slug == p.slug;
                let q = st.posts[k].0;
                assert(has_post(st, q));
                assert(reads(pairs, m, FileItem::Post(q)));
                let i = choose|i: int| 0 <= i < m && pair_item(#[trigger] pairs[i]) == Ok::<FileItem, ContentErrorView>(
                    FileItem::Post(q),
                );
                assert(clash(pair_item(pairs[i])->Ok_0, item));
            } else {
                lemma_post_path_none(st.posts, p.slug);
                assert forall|i: int| 0 <= i < m implies !clash(pair_item(#[trigger] pairs[i])->Ok_0, item) by {
                    if let FileItem::Post(q) = pair_item(pairs[i])->Ok_0 {
                        assert(reads(pairs, m, FileItem::Post(q)));
                        assert(has_post(st, q));
                        let k = choose|k: int| 0 <= k < st.posts.len() && (#[trigger] st.posts[k]).0 == q;
                    }
                }
            }
        },
    }
}

/// The items of the first `m + 1` files: those of the first `m` and the
/// item of file `m`.
proof fn lemma_reads_one_more(pairs: Seq<((Seq<char>, Seq<u8>), ParseOutcomeView)>, m: int)
    requires
        0 <= m < pairs.len(),
    ensures
        forall|x: FileItem| #[trigger] reads(pairs, m + 1, x) <==> (reads(pairs, m, x) || pair_item(pairs[m]) == Ok::<
            FileItem,
            ContentErrorView,
        >(x)),
{
    assert forall|x: FileItem| #[trigger] reads(pairs, m + 1, x) <==> (reads(pairs, m, x) || pair_item(pairs[m])
        == Ok::<FileItem, ContentErrorView>(x)) by {
        if reads(pairs, m + 1, x) {
            let i = choose|i: int| 0 <= i < m + 1 && pair_item(#[trigger] pairs[i]) == Ok::<FileItem, ContentErrorView>(x);
            if i < m {
                assert(reads(pairs, m, x));
            }
        }
        if reads(pairs, m, x) {
            let i = choose|i: int| 0 <= i < m && pair_item(#[trigger] pairs[i]) == Ok::<FileItem, ContentErrorView>(x);
            assert(reads(pairs, m + 1, x));
        }
        if pair_item(pairs[m]) == Ok::<FileItem, ContentErrorView>(x) {
            assert(reads(pairs, m + 1, x));
        }
    }
}

/// Adding the item of file `m` to a state holding the first `m` files'
/// items gives a state holding the first `m + 1` files' items.
proof fn lemma_add_holds(
    st: ScanView,
    pairs: Seq<((Seq<char>, Seq<u8>), ParseOutcomeView)>,
    m: int,
    item: FileItem,
    path: Seq<char>,
)
    requires
        0 <= m < pairs.len(),
        holds_items(st, pairs, m),
        pair_item(pairs[m]) == Ok::<FileItem, ContentErrorView>(item),
    ensures
        holds_items(add_item(st, item, path), pairs, m + 1),
{
    lemma_reads_one_more(pairs, m);
    let next = add_item(st, item, path);
    assert forall|p: PageView| has_page(next, p) <==> reads(pairs, m + 1, FileItem::Page(p)) by {
        assert(reads(pairs, m + 1, FileItem::Page(p)) <==> (reads(pairs, m, FileItem::Page(p)) || item
            == FileItem::Page(p)));
        if has_page(next, p) {
            let k = choose|k: int| 0 <= k < next.pages.len() && (#[trigger] next.pages[k]).0 == p;
            if k < st.pages.len() {
                assert(next.pages[k] == st.pages[k]);
                assert(has_page(st, p));
            }
        }
        if has_page(st, p) {
            let k = choose|k: int| 0 <= k < st.pages.len() && (#[trigger] st.pages[k]).0 == p;
            assert(next.pages[k] == st.pages[k]);
            assert(has_page(next, p));
        }
        if item == FileItem::Page(p) {
            assert(next.pages[st.pages.len() as int].0 == p);
            assert(has_page(next, p));
        }
    }
    assert forall|p: PostView| has_post(next, p) <==> reads(pairs, m + 1, FileItem::Post(p)) by {
        assert(reads(pairs, m + 1, FileItem::Post(p)) <==> (reads(pairs, m, FileItem::Post(p)) || item
            == FileItem::Post(p)));
        if has_post(next, p) {
            let k = choose|k: int| 0 <= k < next.posts.len() && (#[trigger] next.posts[k]).0 == p;
            if k < st.posts.len() {
                assert(next.posts[k] == st.posts[k]);
                assert(has_post(st, p));
            }
        }
        if has_post(st, p) {
            let k = choose|k: int| 0 <= k < st.posts.len() && (#[trigger] st.posts[k]).0 == p;
            assert(next.posts[k] == st.posts[k]);
            assert(has_post(next, p));
        }
        if item == FileItem::Post(p) {
            assert(next.posts[st.posts.len() as int].0 == p);
            assert(has_post(next, p));
        }
    }
    assert forall|d: SiteDataView| next.data == Some(d) implies #[trigger] reads(pairs, m + 1, FileItem::Data(d)) by {
        if item != FileItem::Data(d) {
            assert(reads(pairs, m, FileItem::Data(d)));
        }
    }
    if next.data is None {
        assert forall|d: SiteDataView| !#[trigger] reads(pairs, m + 1, FileItem::Data(d)) by {
            assert(!reads(pairs, m, FileItem::Data(d)));
        }
    }
}

/// Reading the first `n` files succeeds exactly when each file reads on its
/// own and no two items clash, and then the state holds exactly their items.
pub proof fn lemma_scan_reads_items(files: Seq<(Seq<char>, Seq<u8>)>, outcomes: Seq<ParseOutcomeView>, n: nat)
    requires
        n <= files.len(),
        files.len() == outcomes.len(),
    ensures
        scan(files, outcomes, n) is Ok <==> items_fit(file_pairs(files, outcomes), n as int),
        scan(files, outcomes, n) is Ok ==> holds_items(scan(files, outcomes, n)->Ok_0, file_pairs(files, outcomes), n as int),
    decreases n,
{
    let pairs = file_pairs(files, outcomes);
    if n == 0 {
        let st = scan(files, outcomes, 0)->Ok_0;
        assert forall|p: PageView| !has_page(st, p) && !reads(pairs, 0, FileItem::Page(p)) by {}
        assert forall|p: PostView| !has_post(st, p) && !reads(pairs, 0, FileItem::Post(p)) by {}
        assert forall|d: SiteDataView| !#[trigger] reads(pairs, 0, FileItem::Data(d)) by {}
    } else {
        let m = (n - 1) as nat;
        lemma_scan_reads_items(files, outcomes, m);
        assert(pairs[m as int] == (files[m as int], outcomes[m as int]));
        if scan(files, outcomes, m) is Ok {
            let st = scan(files, outcomes, m)->Ok_0;
            lemma_step_reads_item(st, files[m as int].0, files[m as int].1, outcomes[m as int]);
            let it = pair_item(pairs[m as int]);
            if it is Ok {
                lemma_fits_without_clash(st, pairs, m as int, it->Ok_0);
                if fits(st, it->Ok_0) {
                    lemma_add_holds(st, pairs, m as int, it->Ok_0, files[m as int].0);
                    assert(items_fit(pairs, n as int));
                } else {
                    let i = choose|i: int| 0 <= i < m && clash(pair_item(#[trigger] pairs[i])->Ok_0, it->Ok_0);
                    assert(!items_fit(pairs, n as int));
                }
            } else {
                assert(!items_fit(pairs, n as int));
            }
        } else {
            assert(!items_fit(pairs, n as int)) by {
                if items_fit(pairs, n as int) {
                    assert(items_fit(pairs, m as int));
                }
            }
        }
    }
}

/// The same files and outcomes in another order read the same items, and
/// fit as well.
proof fn lemma_reordered_items(
    first: Seq<((Seq<char>, Seq<u8>), ParseOutcomeView)>,
    second: Seq<((Seq<char>, Seq<u8>), ParseOutcomeView)>,
)
    requires
        first.to_multiset() == second.to_multiset(),
        items_fit(first, first.len() as int),
    ensures
        first.len() == second.len(),
        items_fit(second, second.len() as int),
        forall|x: FileItem| #[trigger] reads(first, first.len() as int, x) <==> reads(second, second.len() as int, x),
{
    broadcast use vstd::multiset::group_multiset_axioms, vstd::seq_lib::group_to_multiset_ensures;

    assert(first.to_multiset().len() == first.len());
    assert(second.to_multiset().len() == second.len());
    let n = first.len() as int;
    assert forall|j: int| 0 <= j < n implies #[trigger] first.contains(second[j]) by {
        assert(second.to_multiset().contains(second[j]));
    }
    assert forall|j: int| 0 <= j < n implies #[trigger] second.contains(first[j]) by {
        assert(first.to_multiset().contains(first[j]));
    }
    assert forall|j: int| 0 <= j < n implies pair_item(#[trigger] second[j]) is Ok by {
        assert(first.contains(second[j]));
        let k = choose|k: int| 0 <= k < n && first[k] == second[j];
        assert(pair_item(first[k]) is Ok);
    }
    assert(first.no_duplicates()) by {
        assert forall|i: int, j: int| 0 <= i < n && 0 <= j < n && i != j implies first[i] != first[j] by {
            if first[i] == first[j] {
                let a = pair_item(first[i])->Ok_0;
                assert(clash(a, a));
                if i < j {
                    assert(!clash(pair_item(first[i])->Ok_0, pair_item(first[j])->Ok_0));
                } else {
                    assert(!clash(pair_item(first[j])->Ok_0, pair_item(first[i])->Ok_0));
                }
            }
        }
    }
    first.lemma_multiset_has_no_duplicates();
    second.lemma_multiset_has_no_duplicates_conv();
    assert forall|i: int, j: int| 0 <= i < j < n implies !clash(
        pair_item(#[trigger] second[i])->Ok_0,
        pair_item(#[trigger] second[j])->Ok_0,
    ) by {
        assert(second[i] != second[j]);
        assert(first.contains(second[i]));
        assert(first.contains(second[j]));
        let k = choose|k: int| 0 <= k < n && first[k] == second[i];
        let l = choose|l: int| 0 <= l < n && first[l] == second[j];
        if k < l {
            assert(!clash(pair_item(first[k])->Ok_0, pair_item(first[l])->Ok_0));
        } else {
            assert(!clash(pair_item(first[l])->Ok_0, pair_item(first[k])->Ok_0));
        }
    }
    assert forall|x: FileItem| #[trigger] reads(first, n, x) <==> reads(second, n, x) by {
        if reads(first, n, x) {
            let i = choose|i: int| 0 <= i < n && pair_item(#[trigger] first[i]) == Ok::<FileItem, ContentErrorView>(x);
            assert(second.contains(first[i]));
            let j = choose|j: int| 0 <= j < n && second[j] == first[i];
            assert(pair_item(second[j]) == Ok::<FileItem, ContentErrorView>(x));
        }
        if reads(second, n, x) {
            let i = choose|i: int| 0 <= i < n && pair_item(#[trigger] second[i]) == Ok::<FileItem, ContentErrorView>(x);
            assert(first.contains(second[i]));
            let j = choose|j: int| 0 <= j < n && first[j] == second[i];
            assert(pair_item(first[j]) == Ok::<FileItem, ContentErrorView>(x));
        }
    }
}

/// Two states holding the same pages find the same slugs among them.
proof fn lemma_same_page_slugs(first: ScanView, second: ScanView, slug: Seq<char>)
    requires
        forall|p: PageView| #[trigger] has_page(first, p) <==> has_page(second, p),
    ensures
        (page_path(first.pages, slug) is Some) == (page_path(second.pages, slug) is Some),
{
    if page_path(first.pages, slug) is Some {
        lemma_page_path_some(first.pages, slug);
        let k = choose|k: int| 0 <= k < first.pages.len() && (#[trigger] first.pages[k]).0.slug == slug;
        assert(has_page(first, first.pages[k].0));
        assert(has_page(second, first.pages[k].0));
        let l = choose|l: int| 0 <= l < second.pages.len() && (#[trigger] second.pages[l]).0 == first.pages[k].0;
        if page_path(second.pages, slug) is None {
            lemma_page_path_none(second.pages, slug);
        }
    }
    if page_path(second.pages, slug) is Some {
        lemma_page_path_some(second.pages, slug);
        let k = choose|k: int| 0 <= k < second.pages.len() && (#[trigger] second.pages[k]).0.slug == slug;
        assert(has_page(second, second.pages[k].0));
        assert(has_page(first, second.pages[k].0));
        let l = choose|l: int| 0 <= l < first.pages.len() && (#[trigger] first.pages[l]).0 == second.pages[k].0;
        if page_path(first.pages, slug) is None {
            lemma_page_path_none(first.pages, slug);
        }
    }
}

/// A state's pages, as a list, hold exactly the pages it has.
proof fn lemma_scanned_pages_contain(st: ScanView, p: PageView)
    ensures
        scanned_pages(st).contains(p) <==> has_page(st, p),
{
    if scanned_pages(st).contains(p) {
        let k = choose|k: int| 0 <= k < scanned_pages(st).len() && scanned_pages(st)[k] == p;
        assert(st.pages[k].0 == p);
    }
    if has_page(st, p) {
        let k = choose|k: int| 0 <= k < st.pages.len() && (#[trigger] st.pages[k]).0 == p;
        assert(scanned_pages(st)[k] == p);
    }
}

/// A state's posts, as a list, hold exactly the posts it has.
proof fn lemma_scanned_posts_contain(st: ScanView, p: PostView)
    ensures
        scanned_posts(st).contains(p) <==> has_post(st, p),
{
    if scanned_posts(st).contains(p) {
        let k = choose|k: int| 0 <= k < scanned_posts(st).len() && scanned_posts(st)[k] == p;
        assert(st.posts[k].0 == p);
    }
    if has_post(st, p) {
        let k = choose|k: int| 0 <= k < st.posts.len() && (#[trigger] st.posts[k]).0 == p;
        assert(scanned_posts(st)[k] == p);
    }
}

/// Two lists of pages in slug order holding the same pages are the same.
proof fn lemma_pages_same_contents(x: Seq<PageView>, y: Seq<PageView>)
    requires
        pages_in_order(x),
        pages_in_order(y),
        forall|p: PageView| #[trigger] x.contains(p) <==> y.contains(p),
    ensures
        x == y,
    decreases x.len() + y.len(),
{
    if x.len() == 0 || y.len() == 0 {
        if x.len() > 0 {
            assert(x.contains(x[0]));
            assert(y.contains(x[0]));
        }
        if y.len() > 0 {
            assert(y.contains(y[0]));
            assert(x.contains(y[0]));
        }
        assert(x =~= y);
    } else {
        assert(x.contains(x[0]));
        assert(y.contains(y[0]));
        assert(y.contains(x[0]));
        assert(x.contains(y[0]));
        let i = choose|i: int| 0 <= i < x.len() && x[i] == y[0];
        let j = choose|j: int| 0 <= j < y.len() && y[j] == x[0];
        if i > 0 && j > 0 {
            lemma_seq_lt_asymmetric(x[0].slug, y[0].slug);
        }
        if i > 0 && j == 0 {
            lemma_seq_lt_irreflexive(x[0].slug);
        }
        if i == 0 && j > 0 {
            lemma_seq_lt_irreflexive(y[0].slug);
        }
        assert(x[0] == y[0]);
        let xs = x.drop_first();
        let ys = y.drop_first();
        assert forall|p: PageView| #[trigger] xs.contains(p) <==> ys.contains(p) by {
            if xs.contains(p) {
                let k = choose|k: int| 0 <= k < xs.len() && xs[k] == p;
                assert(x[k + 1] == p);
                assert(x.contains(p));
                assert(y.contains(p));
                let l = choose|l: int| 0 <= l < y.len() && y[l] == p;
                if l == 0 {
                    assert(seq_lt(x[0].slug, x[k + 1].slug));
                    lemma_seq_lt_irreflexive(p.slug);
                }
                assert(ys[l - 1] == p);
            }
            if ys.contains(p) {
                let k = choose|k: int| 0 <= k < ys.len() && ys[k] == p;
                assert(y[k + 1] == p);
                assert(y.contains(p));
                assert(x.contains(p));
                let l = choose|l: int| 0 <= l < x.len() && x[l] == p;
                if l == 0 {
                    assert(seq_lt(y[0].slug, y[k + 1].slug));
                    lemma_seq_lt_irreflexive(p.slug);
                }
                assert(xs[l - 1] == p);
            }
        }
        lemma_pages_same_contents(xs, ys);
        assert(x =~= seq![x[0]] + xs);
        assert(y =~= seq![y[0]] + ys);
    }
}

/// Two lists of posts in the post order holding the same posts are the same.
proof fn lemma_posts_same_contents(x: Seq<PostView>, y: Seq<PostView>)
    requires
        posts_in_order(x),
        posts_in_order(y),
        forall|p: PostView| #[trigger] x.contains(p) <==> y.contains(p),
    ensures
        x == y,
    decreases x.len() + y.len(),
{
    if x.len() == 0 || y.len() == 0 {
        if x.len() > 0 {
            assert(x.contains(x[0]));
            assert(y.contains(x[0]));
        }
        if y.len() > 0 {
            assert(y.contains(y[0]));
            assert(x.contains(y[0]));
        }
        assert(x =~= y);
    } else {
        assert(x.contains(x[0]));
        assert(y.contains(y[0]));
        assert(y.contains(x[0]));
        assert(x.contains(y[0]));
        let i = choose|i: int| 0 <= i < x.len() && x[i] == y[0];
        let j = choose|j: int| 0 <= j < y.len() && y[j] == x[0];
        if i > 0 && j > 0 {
            lemma_post_before_asymmetric(x[0], y[0]);
        }
        if i > 0 && j == 0 {
            lemma_post_before_irreflexive(x[0]);
        }
        if i == 0 && j > 0 {
            lemma_post_before_irreflexive(y[0]);
        }
        assert(x[0] == y[0]);
        let xs = x.drop_first();
        let ys = y.drop_first();
        assert forall|p: PostView| #[trigger] xs.contains(p) <==> ys.contains(p) by {
            if xs.contains(p) {
                let k = choose|k: int| 0 <= k < xs.len() && xs[k] == p;
                assert(x[k + 1] == p);
                assert(x.contains(p));
                assert(y.contains(p));
                let l = choose|l: int| 0 <= l < y.len() && y[l] == p;
                if l == 0 {
                    assert(post_before(x[0], x[k + 1]));
                    lemma_post_before_irreflexive(p);
                }
                assert(ys[l - 1] == p);
            }
            if ys.contains(p) {
                let k = choose|k: int| 0 <= k < ys.len() && ys[k] == p;
                assert(y[k + 1] == p);
                assert(y.contains(p));
                assert(x.contains(p));
                let l = choose|l: int| 0 <= l < x.len() && x[l] == p;
                if l == 0 {
                    assert(post_before(y[0], y[k + 1]));
                    lemma_post_before_irreflexive(p);
                }
                assert(xs[l - 1] == p);
            }
        }
        lemma_posts_same_contents(xs, ys);
        assert(x =~= seq![x[0]] + xs);
        assert(y =~= seq![y[0]] + ys);
    }
}

/// A state's visible posts are the posts it has that are shown.
proof fn lemma_visible_contains(st: ScanView, include_drafts: bool, p: PostView)
    ensures
        visible_posts(st, include_drafts).contains(p) <==> (has_post(st, p) && (include_drafts || !p.draft)),
{
    let keep = |q: PostView| include_drafts || !q.draft;
    lemma_scanned_posts_contain(st, p);
    if visible_posts(st, include_drafts).contains(p) {
        scanned_posts(st).lemma_filter_contains_rev(keep, p);
        let k = choose|k: int| 0 <= k < scanned_posts(st).filter(keep).len() && scanned_posts(st).filter(keep)[k] == p;
        scanned_posts(st).lemma_filter_pred(keep, k);
    }
    if has_post(st, p) && (include_drafts || !p.draft) {
        let k = choose|k: int| 0 <= k < scanned_posts(st).len() && scanned_posts(st)[k] == p;
        scanned_posts(st).lemma_filter_contains(keep, k);
    }
}

/// Loading does not depend on the order the files come in: the same files,
/// each with its parse outcome, in any other order load too, and a
/// repository serving either load serves the same pages, posts, modules,
/// words and slogans. Every query's contract is stated over that view, the
/// year grouping and the tag list being fixed by it as the laws
/// `law_year_groups_fixed_by_posts` and `law_tag_list_fixed_by_posts` show.
pub proof fn law_load_ignores_file_order(
    files: Seq<(Seq<char>, Seq<u8>)>,
    outcomes: Seq<ParseOutcomeView>,
    reordered_files: Seq<(Seq<char>, Seq<u8>)>,
    reordered_outcomes: Seq<ParseOutcomeView>,
    first: RepositoryView,
    second: RepositoryView,
    include_drafts: bool,
)
    requires
        files.len() == outcomes.len(),
        reordered_files.len() == reordered_outcomes.len(),
        file_pairs(files, outcomes).to_multiset() == file_pairs(reordered_files, reordered_outcomes).to_multiset(),
        spec_load(files, outcomes) is Ok,
    ensures
        spec_load(reordered_files, reordered_outcomes) is Ok,
        serves_load(first, spec_load(files, outcomes)->Ok_0, include_drafts) && serves_load(
            second,
            spec_load(reordered_files, reordered_outcomes)->Ok_0,
            include_drafts,
        ) ==> first == second,
{
    broadcast use vstd::seq_lib::group_to_multiset_ensures;

    let p1 = file_pairs(files, outcomes);
    let p2 = file_pairs(reordered_files, reordered_outcomes);
    let n = files.len();
    lemma_scan_reads_items(files, outcomes, n);
    lemma_reordered_items(p1, p2);
    let m = reordered_files.len();
    assert(m == n);
    lemma_scan_reads_items(reordered_files, reordered_outcomes, m);
    let st1 = scan(files, outcomes, n)->Ok_0;
    let st2 = scan(reordered_files, reordered_outcomes, m)->Ok_0;
    assert forall|q: PageView| #[trigger] has_page(st1, q) <==> has_page(st2, q) by {
        assert(reads(p1, n as int, FileItem::Page(q)) <==> reads(p2, m as int, FileItem::Page(q)));
    }
    assert forall|q: PostView| #[trigger] has_post(st1, q) <==> has_post(st2, q) by {
        assert(reads(p1, n as int, FileItem::Post(q)) <==> reads(p2, m as int, FileItem::Post(q)));
    }
    let d1 = st1.data->0;
    assert(reads(p1, n as int, FileItem::Data(d1)));
    assert(reads(p2, m as int, FileItem::Data(d1)));
    let d2 = st2.data->0;
    assert(reads(p2, m as int, FileItem::Data(d2)));
    assert(reads(p1, n as int, FileItem::Data(d2)));
    assert(d1 == d2) by {
        let i = choose|i: int| 0 <= i < n && pair_item(#[trigger] p1[i]) == Ok::<FileItem, ContentErrorView>(
            FileItem::Data(d1),
        );
        let k = choose|k: int| 0 <= k < n && pair_item(#[trigger] p1[k]) == Ok::<FileItem, ContentErrorView>(
            FileItem::Data(d2),
        );
        if i < k {
            assert(!clash(pair_item(p1[i])->Ok_0, pair_item(p1[k])->Ok_0));
        } else if k < i {
            assert(!clash(pair_item(p1[k])->Ok_0, pair_item(p1[i])->Ok_0));
        }
    }
    lemma_same_page_slugs(st1, st2, "root"@);
    lemma_same_page_slugs(st1, st2, "about"@);
    lemma_same_page_slugs(st1, st2, "reading"@);
    assert(spec_validate_site(st2) == spec_validate_site(st1));
    if serves_load(first, st1, include_drafts) && serves_load(second, st2, include_drafts) {
        assert forall|q: PageView| #[trigger] first.pages.contains(q) <==> second.pages.contains(q) by {
            lemma_scanned_pages_contain(st1, q);
            lemma_scanned_pages_contain(st2, q);
            assert(first.pages.contains(q) <==> first.pages.to_multiset().count(q) > 0);
            assert(second.pages.contains(q) <==> second.pages.to_multiset().count(q) > 0);
            assert(scanned_pages(st1).contains(q) <==> scanned_pages(st1).to_multiset().count(q) > 0);
            assert(scanned_pages(st2).contains(q) <==> scanned_pages(st2).to_multiset().count(q) > 0);
        }
        lemma_pages_same_contents(first.pages, second.pages);
        assert forall|q: PostView| #[trigger] first.posts.contains(q) <==> second.posts.contains(q) by {
            lemma_visible_contains(st1, include_drafts, q);
            lemma_visible_contains(st2, include_drafts, q);
            assert(first.posts.contains(q) <==> first.posts.to_multiset().count(q) > 0);
            assert(second.posts.contains(q) <==> second.posts.to_multiset().count(q) > 0);
            assert(visible_posts(st1, include_drafts).contains(q) <==> visible_posts(st1, include_drafts).to_multiset().count(
                q,
            ) > 0);
            assert(visible_posts(st2, include_drafts).contains(q) <==> visible_posts(st2, include_drafts).to_multiset().count(
                q,
            ) > 0);
        }
        lemma_posts_same_contents(first.posts, second.posts);
        lemma_modules_in_order_unique(first.modules, second.modules);
    }
}

} // verus!
