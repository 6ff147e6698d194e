//! The orders the repository keeps its posts and modules in, and the
//! insertion sorts that establish them.
use vstd::prelude::*;

use crate::content::model::{GoModuleView, PageView, PostView};
use crate::content::{GoModule, Page, Post};
use crate::text::{chars_less, chars_of, lemma_seq_lt_asymmetric, lemma_seq_lt_irreflexive, lemma_seq_lt_total,
    lemma_seq_lt_transitive, seq_lt};

verus! {

broadcast use {vstd::string::group_string_axioms, vstd::seq_lib::group_seq_properties};

/// `a` is listed before `b`: newer posts first, and among posts of one day
/// the smaller slug first.
pub open spec fn post_before(a: PostView, b: PostView) -> bool {
    b.publish_date.before(a.publish_date) || (a.publish_date == b.publish_date && seq_lt(a.slug, b.slug))
}

/// Posts listed newest first with the slug as tie-break, each pair in order.
pub open spec fn posts_in_order(s: Seq<PostView>) -> bool {
    forall|i: int, j: int| 0 <= i < j < s.len() ==> post_before(#[trigger] s[i], #[trigger] s[j])
}

/// No two posts share a slug.
pub open spec fn distinct_post_slugs(s: Seq<PostView>) -> bool {
    forall|i: int, j: int| 0 <= i < j < s.len() ==> (#[trigger] s[i]).slug != (#[trigger] s[j]).slug
}

/// Modules listed by name, each pair in order.
pub open spec fn modules_in_order(s: Seq<GoModuleView>) -> bool {
    forall|i: int, j: int| 0 <= i < j < s.len() ==> seq_lt((#[trigger] s[i]).name, (#[trigger] s[j]).name)
}

/// Pages listed by slug, each pair in order.
pub open spec fn pages_in_order(s: Seq<PageView>) -> bool {
    forall|i: int, j: int| 0 <= i < j < s.len() ==> seq_lt((#[trigger] s[i]).slug, (#[trigger] s[j]).slug)
}

/// No two pages share a slug.
pub open spec fn distinct_page_slugs(s: Seq<PageView>) -> bool {
    forall|i: int, j: int| 0 <= i < j < s.len() ==> (#[trigger] s[i]).slug != (#[trigger] s[j]).slug
}

pub open spec fn page_views(s: Seq<Page>) -> Seq<PageView> {
    s.map_values(|p: Page| p@)
}

/// No two modules share a name.
pub open spec fn distinct_module_names(s: Seq<GoModuleView>) -> bool {
    forall|i: int, j: int| 0 <= i < j < s.len() ==> (#[trigger] s[i]).name != (#[trigger] s[j]).name
}

pub open spec fn post_views(s: Seq<Post>) -> Seq<PostView> {
    s.map_values(|p: Post| p@)
}

pub open spec fn module_views(s: Seq<GoModule>) -> Seq<GoModuleView> {
    s.map_values(|m: GoModule| m@)
}

pub proof fn lemma_post_before_transitive(a: PostView, b: PostView, c: PostView)
    requires
        post_before(a, b),
        post_before(b, c),
    ensures
        post_before(a, c),
{
    if a.publish_date == b.publish_date && b.publish_date == c.publish_date {
        lemma_seq_lt_transitive(a.slug, b.slug, c.slug);
    }
}

pub proof fn lemma_post_before_total(a: PostView, b: PostView)
    requires
        a.slug != b.slug,
    ensures
        post_before(a, b) || post_before(b, a),
{
    lemma_seq_lt_total(a.slug, b.slug);
}

pub proof fn lemma_post_before_irreflexive(a: PostView)
    ensures
        !post_before(a, a),
{
    lemma_seq_lt_irreflexive(a.slug);
}

pub proof fn lemma_post_before_asymmetric(a: PostView, b: PostView)
    ensures
        post_before(a, b) ==> !post_before(b, a),
{
    lemma_seq_lt_asymmetric(a.slug, b.slug);
}

/// Whether post `a` is listed before post `b`.
pub fn post_precedes(a: &Post, b: &Post) -> (r: bool)
    ensures
        r == post_before(a@, b@),
{
    if b.publish_date.is_before(&a.publish_date) {
        return true;
    }
    if a.publish_date == b.publish_date {
        let x = chars_of(a.slug.as_str());
        let y = chars_of(b.slug.as_str());
        return chars_less(&x, &y);
    }
    false
}

/// Arranges posts newest first, the slug breaking ties.
pub fn sort_posts(v: Vec<Post>) -> (out: Vec<Post>)
    requires
        distinct_post_slugs(post_views(v@)),
    ensures
        post_views(out@).to_multiset() == post_views(v@).to_multiset(),
        posts_in_order(post_views(out@)),
{
    let ghost orig = v@;
    let mut rest = v;
    let mut out: Vec<Post> = Vec::new();
    while rest.len() > 0
        invariant
            orig == v@,
            rest@ == orig.take(rest@.len() as int),
            rest@.len() <= orig.len(),
            distinct_post_slugs(post_views(orig)),
            posts_in_order(post_views(out@)),
            post_views(out@).to_multiset().add(post_views(rest@).to_multiset()) == post_views(orig).to_multiset(),
            forall|i: int, j: int|
                0 <= i < out@.len() && 0 <= j < rest@.len() ==> (#[trigger] out@[i])@.slug != (#[trigger] rest@[j])@.slug,
        decreases rest@.len(),
    {
        let ghost rest0 = rest@;
        let ghost out0 = out@;
        let x = rest.pop().unwrap();
        assert(rest0 =~= rest@.push(x));
        assert(post_views(rest0) =~= post_views(rest@).push(x@));
        // x differs in slug from everything still pending
        assert forall|j: int| 0 <= j < rest@.len() implies (#[trigger] rest@[j])@.slug != x@.slug by {
            assert(rest@[j] == orig[j]);
            assert(x == orig[rest@.len() as int]);
            assert(post_views(orig)[j] == orig[j]@);
            assert(post_views(orig)[rest@.len() as int] == orig[rest@.len() as int]@);
        }
        let mut k: usize = 0;
        while k < out.len() && !post_precedes(&x, &out[k])
            invariant
                k <= out@.len(),
                out@ == out0,
                forall|j: int| 0 <= j < k ==> !post_before(x@, (#[trigger] out@[j])@),
            decreases out@.len() - k,
        {
            k += 1;
        }
        let ghost xv = x@;
        proof {
            assert forall|j: int| 0 <= j < k implies post_before((#[trigger] out0[j])@, xv) by {
                assert(out0[j]@.slug != xv.slug);
                lemma_post_before_total(out0[j]@, xv);
            }
            if k < out0.len() {
                assert forall|j: int| k <= j < out0.len() implies post_before(xv, (#[trigger] out0[j])@) by {
                    if j > k {
                        assert(post_views(out0)[k as int] == out0[k as int]@);
                        assert(post_views(out0)[j] == out0[j]@);
                        lemma_post_before_transitive(xv, out0[k as int]@, out0[j]@);
                    }
                }
            }
        }
        out.insert(k, x);
        proof {
            assert(post_views(out@) =~= post_views(out0).insert(k as int, xv));
            vstd::seq_lib::to_multiset_insert(post_views(out0), k as int, xv);
            vstd::seq_lib::to_multiset_build(post_views(rest@), xv);
            assert(post_views(out@).to_multiset().add(post_views(rest@).to_multiset()) =~= post_views(orig).to_multiset());
            assert forall|i: int, j: int| 0 <= i < j < post_views(out@).len() implies post_before(
                #[trigger] post_views(out@)[i],
                #[trigger] post_views(out@)[j],
            ) by {
                if j < k {
                    assert(post_views(out0)[i] == post_views(out@)[i]);
                    assert(post_views(out0)[j] == post_views(out@)[j]);
                } else if j == k {
                    assert(post_views(out@)[i] == out0[i]@);
                } else if i < k {
                    assert(post_views(out@)[i] == out0[i]@);
                    assert(post_views(out@)[j] == out0[j - 1]@);
                    lemma_post_before_transitive(out0[i]@, xv, out0[j - 1]@);
                } else if i == k {
                    assert(post_views(out@)[j] == out0[j - 1]@);
                } else {
                    assert(post_views(out0)[i - 1] == post_views(out@)[i]);
                    assert(post_views(out0)[j - 1] == post_views(out@)[j]);
                }
            }
            assert forall|i: int, j: int| 0 <= i < out@.len() && 0 <= j < rest@.len() implies (#[trigger] out@[i])@.slug
                != (#[trigger] rest@[j])@.slug by {
                if i < k {
                    assert(out@[i] == out0[i]);
                    assert(rest@[j] == rest0[j]);
                } else if i == k {
                } else {
                    assert(out@[i] == out0[i - 1]);
                    assert(rest@[j] == rest0[j]);
                }
            }
        }
    }
    assert(post_views(rest@) =~= Seq::<PostView>::empty());
    assert(post_views(out@).to_multiset().add(post_views(rest@).to_multiset()) =~= post_views(out@).to_multiset());
    out
}

/// Whether module `a` is listed before module `b`.
pub fn name_precedes(a: &GoModule, b: &GoModule) -> (r: bool)
    ensures
        r == seq_lt(a@.name, b@.name),
{
    let x = chars_of(a.name.as_str());
    let y = chars_of(b.name.as_str());
    chars_less(&x, &y)
}

/// Arranges modules by name.
pub fn sort_modules(v: Vec<GoModule>) -> (out: Vec<GoModule>)
    requires
        distinct_module_names(module_views(v@)),
    ensures
        module_views(out@).to_multiset() == module_views(v@).to_multiset(),
        modules_in_order(module_views(out@)),
{
    let ghost orig = v@;
    let mut rest = v;
    let mut out: Vec<GoModule> = Vec::new();
    while rest.len() > 0
        invariant
            orig == v@,
            rest@ == orig.take(rest@.len() as int),
            rest@.len() <= orig.len(),
            distinct_module_names(module_views(orig)),
            modules_in_order(module_views(out@)),
            module_views(out@).to_multiset().add(module_views(rest@).to_multiset()) == module_views(orig).to_multiset(),
            forall|i: int, j: int|
                0 <= i < out@.len() && 0 <= j < rest@.len() ==> (#[trigger] out@[i])@.name != (#[trigger] rest@[j])@.name,
        decreases rest@.len(),
    {
        let ghost rest0 = rest@;
        let ghost out0 = out@;
        let x = rest.pop().unwrap();
        assert(rest0 =~= rest@.push(x));
        assert(module_views(rest0) =~= module_views(rest@).push(x@));
        // x differs in name from everything still pending
        assert forall|j: int| 0 <= j < rest@.len() implies (#[trigger] rest@[j])@.name != x@.name by {
            assert(rest@[j] == orig[j]);
            assert(x == orig[rest@.len() as int]);
            assert(module_views(orig)[j] == orig[j]@);
            assert(module_views(orig)[rest@.len() as int] == orig[rest@.len() as int]@);
        }
        let mut k: usize = 0;
        while k < out.len() && !name_precedes(&x, &out[k])
            invariant
                k <= out@.len(),
                out@ == out0,
                forall|j: int| 0 <= j < k ==> !seq_lt(x@.name, (#[trigger] out@[j])@.name),
            decreases out@.len() - k,
        {
            k += 1;
        }
        let ghost xv = x@;
        proof {
            assert forall|j: int| 0 <= j < k implies seq_lt((#[trigger] out0[j])@.name, xv.name) by {
                assert(out0[j]@.name != xv.name);
                lemma_seq_lt_total(out0[j]@.name, xv.name);
            }
            if k < out0.len() {
                assert forall|j: int| k <= j < out0.len() implies seq_lt(xv.name, (#[trigger] out0[j])@.name) by {
                    if j > k {
                        assert(module_views(out0)[k as int] == out0[k as int]@);
                        assert(module_views(out0)[j] == out0[j]@);
                        lemma_seq_lt_transitive(xv.name, out0[k as int]@.name, out0[j]@.name);
                    }
                }
            }
        }
        out.insert(k, x);
        proof {
            assert(module_views(out@) =~= module_views(out0).insert(k as int, xv));
            vstd::seq_lib::to_multiset_insert(module_views(out0), k as int, xv);
            vstd::seq_lib::to_multiset_build(module_views(rest@), xv);
            assert(module_views(out@).to_multiset().add(module_views(rest@).to_multiset()) =~= module_views(orig).to_multiset());
            assert forall|i: int, j: int| 0 <= i < j < module_views(out@).len() implies seq_lt(
                (#[trigger] module_views(out@)[i]).name,
                (#[trigger] module_views(out@)[j]).name,
            ) by {
                if j < k {
                    assert(module_views(out0)[i] == module_views(out@)[i]);
                    assert(module_views(out0)[j] == module_views(out@)[j]);
                } else if j == k {
                    assert(module_views(out@)[i] == out0[i]@);
                } else if i < k {
                    assert(module_views(out@)[i] == out0[i]@);
                    assert(module_views(out@)[j] == out0[j - 1]@);
                    lemma_seq_lt_transitive(out0[i]@.name, xv.name, out0[j - 1]@.name);
                } else if i == k {
                    assert(module_views(out@)[j] == out0[j - 1]@);
                } else {
                    assert(module_views(out0)[i - 1] == module_views(out@)[i]);
                    assert(module_views(out0)[j - 1] == module_views(out@)[j]);
                }
            }
            assert forall|i: int, j: int| 0 <= i < out@.len() && 0 <= j < rest@.len() implies (#[trigger] out@[i])@.name
                != (#[trigger] rest@[j])@.name by {
                if i < k {
                    assert(out@[i] == out0[i]);
                    assert(rest@[j] == rest0[j]);
                } else if i == k {
                } else {
                    assert(out@[i] == out0[i - 1]);
                    assert(rest@[j] == rest0[j]);
                }
            }
        }
    }
    assert(module_views(rest@) =~= Seq::<GoModuleView>::empty());
    assert(module_views(out@).to_multiset().add(module_views(rest@).to_multiset()) =~= module_views(out@).to_multiset());
    out
}

/// Whether page `a` is listed before page `b`.
pub fn slug_precedes(a: &Page, b: &Page) -> (r: bool)
    ensures
        r == seq_lt(a@.slug, b@.slug),
{
    let x = chars_of(a.slug.as_str());
    let y = chars_of(b.slug.as_str());
    chars_less(&x, &y)
}

/// Arranges pages by slug.
pub fn sort_pages(v: Vec<Page>) -> (out: Vec<Page>)
    requires
        distinct_page_slugs(page_views(v@)),
    ensures
        page_views(out@).to_multiset() == page_views(v@).to_multiset(),
        pages_in_order(page_views(out@)),
{
    let ghost orig = v@;
    let mut rest = v;
    let mut out: Vec<Page> = Vec::new();
    while rest.len() > 0
        invariant
            orig == v@,
            rest@ == orig.take(rest@.len() as int),
            rest@.len() <= orig.len(),
            distinct_page_slugs(page_views(orig)),
            pages_in_order(page_views(out@)),
            page_views(out@).to_multiset().add(page_views(rest@).to_multiset()) == page_views(orig).to_multiset(),
            forall|i: int, j: int|
                0 <= i < out@.len() && 0 <= j < rest@.len() ==> (#[trigger] out@[i])@.slug != (#[trigger] rest@[j])@.slug,
        decreases rest@.len(),
    {
        let ghost rest0 = rest@;
        let ghost out0 = out@;
        let x = rest.pop().unwrap();
        assert(rest0 =~= rest@.push(x));
        assert(page_views(rest0) =~= page_views(rest@).push(x@));
        // x differs in name from everything still pending
        assert forall|j: int| 0 <= j < rest@.len() implies (#[trigger] rest@[j])@.slug != x@.slug by {
            assert(rest@[j] == orig[j]);
            assert(x == orig[rest@.len() as int]);
            assert(page_views(orig)[j] == orig[j]@);
            assert(page_views(orig)[rest@.len() as int] == orig[rest@.len() as int]@);
        }
        let mut k: usize = 0;
        while k < out.len() && !slug_precedes(&x, &out[k])
            invariant
                k <= out@.len(),
                out@ == out0,
                forall|j: int| 0 <= j < k ==> !seq_lt(x@.slug, (#[trigger] out@[j])@.slug),
            decreases out@.len() - k,
        {
            k += 1;
        }
        let ghost xv = x@;
        proof {
            assert forall|j: int| 0 <= j < k implies seq_lt((#[trigger] out0[j])@.slug, xv.slug) by {
                assert(out0[j]@.slug != xv.slug);
                lemma_seq_lt_total(out0[j]@.slug, xv.slug);
            }
            if k < out0.len() {
                assert forall|j: int| k <= j < out0.len() implies seq_lt(xv.slug, (#[trigger] out0[j])@.slug) by {
                    if j > k {
                        assert(page_views(out0)[k as int] == out0[k as int]@);
                        assert(page_views(out0)[j] == out0[j]@);
                        lemma_seq_lt_transitive(xv.slug, out0[k as int]@.slug, out0[j]@.slug);
                    }
                }
            }
        }
        out.insert(k, x);
        proof {
            assert(page_views(out@) =~= page_views(out0).insert(k as int, xv));
            vstd::seq_lib::to_multiset_insert(page_views(out0), k as int, xv);
            vstd::seq_lib::to_multiset_build(page_views(rest@), xv);
            assert(page_views(out@).to_multiset().add(page_views(rest@).to_multiset()) =~= page_views(orig).to_multiset());
            assert forall|i: int, j: int| 0 <= i < j < page_views(out@).len() implies seq_lt(
                (#[trigger] page_views(out@)[i]).slug,
                (#[trigger] page_views(out@)[j]).slug,
            ) by {
                if j < k {
                    assert(page_views(out0)[i] == page_views(out@)[i]);
                    assert(page_views(out0)[j] == page_views(out@)[j]);
                } else if j == k {
                    assert(page_views(out@)[i] == out0[i]@);
                } else if i < k {
                    assert(page_views(out@)[i] == out0[i]@);
                    assert(page_views(out@)[j] == out0[j - 1]@);
                    lemma_seq_lt_transitive(out0[i]@.slug, xv.slug, out0[j - 1]@.slug);
                } else if i == k {
                    assert(page_views(out@)[j] == out0[j - 1]@);
                } else {
                    assert(page_views(out0)[i - 1] == page_views(out@)[i]);
                    assert(page_views(out0)[j - 1] == page_views(out@)[j]);
                }
            }
            assert forall|i: int, j: int| 0 <= i < out@.len() && 0 <= j < rest@.len() implies (#[trigger] out@[i])@.slug
                != (#[trigger] rest@[j])@.slug by {
                if i < k {
                    assert(out@[i] == out0[i]);
                    assert(rest@[j] == rest0[j]);
                } else if i == k {
                } else {
                    assert(out@[i] == out0[i - 1]);
                    assert(rest@[j] == rest0[j]);
                }
            }
        }
    }
    assert(page_views(rest@) =~= Seq::<PageView>::empty());
    assert(page_views(out@).to_multiset().add(page_views(rest@).to_multiset()) =~= page_views(out@).to_multiset());
    out
}

/// Two lists of the same posts, each in the post order, are the same list.
pub proof fn lemma_posts_in_order_unique(x: Seq<PostView>, y: Seq<PostView>)
    requires
        posts_in_order(x),
        posts_in_order(y),
        x.to_multiset() == y.to_multiset(),
    ensures
        x == y,
    decreases x.len(),
{
    broadcast use vstd::multiset::group_multiset_axioms, vstd::seq_lib::group_to_multiset_ensures;

    if x.len() == 0 || y.len() == 0 {
        assert(x.to_multiset().len() == x.len());
        assert(y.to_multiset().len() == y.len());
        assert(x.len() == y.len());
        assert(x =~= y);
    } else {
        assert(x.to_multiset().contains(y[0]));
        assert(y.to_multiset().contains(x[0]));
        let i = choose|i: int| 0 <= i < x.len() && x[i] == y[0];
        let j = choose|j: int| 0 <= j < y.len() && y[j] == x[0];
        if i > 0 && j > 0 {
            assert(post_before(x[0], x[i]));
            assert(post_before(y[0], y[j]));
            lemma_post_before_asymmetric(x[0], y[0]);
        }
        if i > 0 && j == 0 {
            assert(post_before(x[0], x[i]));
            lemma_post_before_irreflexive(x[0]);
        }
        if i == 0 && j > 0 {
            assert(post_before(y[0], y[j]));
            lemma_post_before_irreflexive(y[0]);
        }
        assert(x[0] == y[0]);
        assert(x.remove(0) =~= x.drop_first());
        assert(y.remove(0) =~= y.drop_first());
        assert(x.drop_first().to_multiset() == y.drop_first().to_multiset());
        lemma_posts_in_order_unique(x.drop_first(), y.drop_first());
        assert(x =~= seq![x[0]] + x.drop_first());
        assert(y =~= seq![y[0]] + y.drop_first());
    }
}

/// Two lists of the same modules, each in name order, are the same list.
pub proof fn lemma_modules_in_order_unique(x: Seq<GoModuleView>, y: Seq<GoModuleView>)
    requires
        modules_in_order(x),
        modules_in_order(y),
        x.to_multiset() == y.to_multiset(),
    ensures
        x == y,
    decreases x.len(),
{
    broadcast use vstd::multiset::group_multiset_axioms, vstd::seq_lib::group_to_multiset_ensures;

    if x.len() == 0 || y.len() == 0 {
        assert(x.to_multiset().len() == x.len());
        assert(y.to_multiset().len() == y.len());
        assert(x.len() == y.len());
        assert(x =~= y);
    } else {
        assert(x.to_multiset().contains(y[0]));
        assert(y.to_multiset().contains(x[0]));
        let i = choose|i: int| 0 <= i < x.len() && x[i] == y[0];
        let j = choose|j: int| 0 <= j < y.len() && y[j] == x[0];
        if i > 0 && j > 0 {
            assert(seq_lt(x[0].name, x[i].name));
            assert(seq_lt(y[0].name, y[j].name));
            lemma_seq_lt_asymmetric(x[0].name, y[0].name);
        }
        if i > 0 && j == 0 {
            assert(seq_lt(x[0].name, x[i].name));
            lemma_seq_lt_irreflexive(x[0].name);
        }
        if i == 0 && j > 0 {
            assert(seq_lt(y[0].name, y[j].name));
            lemma_seq_lt_irreflexive(y[0].name);
        }
        assert(x[0] == y[0]);
        assert(x.remove(0) =~= x.drop_first());
        assert(y.remove(0) =~= y.drop_first());
        assert(x.drop_first().to_multiset() == y.drop_first().to_multiset());
        lemma_modules_in_order_unique(x.drop_first(), y.drop_first());
        assert(x =~= seq![x[0]] + x.drop_first());
        assert(y =~= seq![y[0]] + y.drop_first());
    }
}

/// Rearranging posts keeps their slugs distinct.
pub proof fn lemma_distinct_post_slugs_rearranged(x: Seq<PostView>, y: Seq<PostView>)
    requires
        distinct_post_slugs(x),
        x.to_multiset() == y.to_multiset(),
    ensures
        distinct_post_slugs(y),
{
    broadcast use vstd::multiset::group_multiset_axioms, vstd::seq_lib::group_to_multiset_ensures;

    assert(x.no_duplicates()) by {
        assert forall|i: int, j: int| 0 <= i < x.len() && 0 <= j < x.len() && i != j implies x[i] != x[j] by {
            if i < j {
                assert(x[i].slug != x[j].slug);
            } else {
                assert(x[j].slug != x[i].slug);
            }
        }
    }
    x.lemma_multiset_has_no_duplicates();
    y.lemma_multiset_has_no_duplicates_conv();
    assert forall|i: int, j: int| 0 <= i < j < y.len() implies (#[trigger] y[i]).slug != (#[trigger] y[j]).slug by {
        assert(y[i] != y[j]);
        assert(x.to_multiset().contains(y[i]));
        assert(x.to_multiset().contains(y[j]));
        let k = choose|k: int| 0 <= k < x.len() && x[k] == y[i];
        let l = choose|l: int| 0 <= l < x.len() && x[l] == y[j];
        if k < l {
            assert(x[k].slug != x[l].slug);
        } else if l < k {
            assert(x[l].slug != x[k].slug);
        }
    }
}

} // verus!
