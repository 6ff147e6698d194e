//! What holds of the repository across its operations.
use vstd::prelude::*;

use crate::content::embedded::{
    file_role, flatten_groups, names_in_order, groups_of_one_year, has_tag, is_consistent, posts_of_year, posts_tagged, scan,
    scanned_posts, serves_load, spec_load, summarizes_tags, tag_used, visible_posts, years_descending, FileRole,
    ParseOutcomeView, RepositoryView, ScanView,
};
use crate::content::model::{PostView, TagSummaryView};
use crate::content::order::{lemma_modules_in_order_unique, lemma_posts_in_order_unique, post_before, posts_in_order};
use crate::text::{
    first_difference_smaller, is_proper_prefix, law_seq_lt_is_text_order, lemma_seq_lt_asymmetric,
    lemma_seq_lt_irreflexive, seq_lt,
};
use crate::content::embedded::{
    is_whitespace, lemma_first_module_error_found, lemma_no_module_error, module_error, spec_validate_site,
};
use crate::bindings::url_parse;
use crate::content::model::{day_number, law_before_is_chronological, GoModuleView};
use crate::content::order::modules_in_order;

verus! {

broadcast use vstd::seq_lib::group_seq_properties;

/// Posts all of one year filter to themselves for that year, and to nothing
/// for any other year.
proof fn lemma_filter_one_year(s: Seq<PostView>, year: i32, y: i32)
    requires
        forall|k: int| 0 <= k < s.len() ==> (#[trigger] s[k]).publish_date.year == year,
    ensures
        posts_of_year(s, y) == (if year == y {
            s
        } else {
            Seq::<PostView>::empty()
        }),
    decreases s.len(),
{
    let keep = |p: PostView| p.publish_date.year == y;
    if s.len() > 0 {
        let front = s.drop_last();
        lemma_filter_one_year(front, year, y);
        assert(s =~= front.push(s.last()));
        front.lemma_filter_push(s.last(), keep);
    } else {
        assert(s.filter(keep) =~= Seq::<PostView>::empty());
        assert(s =~= Seq::<PostView>::empty());
    }
}

/// Filtering the posts of all groups for a year keeps exactly the group of
/// that year, or nothing if no group has it.
proof fn lemma_flatten_year(groups: Seq<(i32, Seq<PostView>)>, y: i32)
    requires
        years_descending(groups),
        groups_of_one_year(groups),
    ensures
        (forall|a: int| 0 <= a < groups.len() ==> (#[trigger] groups[a]).0 != y) ==> posts_of_year(
            flatten_groups(groups),
            y,
        ) == Seq::<PostView>::empty(),
        forall|a: int| 0 <= a < groups.len() && (#[trigger] groups[a]).0 == y ==> posts_of_year(
            flatten_groups(groups),
            y,
        ) == groups[a].1,
    decreases groups.len(),
{
    if groups.len() == 0 {
        assert(flatten_groups(groups) =~= Seq::<PostView>::empty());
        assert(Seq::<PostView>::empty().filter(|p: PostView| p.publish_date.year == y) =~= Seq::<PostView>::empty());
    } else {
        let front = groups.drop_last();
        let last = groups.last();
        assert(years_descending(front));
        assert(groups_of_one_year(front)) by {
            assert forall|a: int| 0 <= a < front.len() implies front[a].1.len() > 0 && forall|k: int|
                0 <= k < front[a].1.len() ==> (#[trigger] front[a].1[k]).publish_date.year == front[a].0 by {
                assert(front[a] == groups[a]);
            }
        }
        lemma_flatten_year(front, y);
        assert(groups[groups.len() - 1] == last);
        lemma_filter_one_year(last.1, last.0, y);
        Seq::filter_distributes_over_add(
            flatten_groups(front),
            last.1,
            |p: PostView| p.publish_date.year == y,
        );
        if last.0 == y {
            assert forall|a: int| 0 <= a < front.len() implies (#[trigger] front[a]).0 != y by {
                assert(front[a] == groups[a]);
                assert(groups[a].0 > groups[groups.len() - 1].0);
            }
            assert(posts_of_year(flatten_groups(groups), y) =~= last.1);
            assert forall|a: int| 0 <= a < groups.len() && (#[trigger] groups[a]).0 == y implies posts_of_year(
                flatten_groups(groups),
                y,
            ) == groups[a].1 by {
                if a < groups.len() - 1 {
                    assert(groups[a].0 > groups[groups.len() - 1].0);
                }
            }
        } else {
            assert(posts_of_year(flatten_groups(groups), y) =~= posts_of_year(flatten_groups(front), y));
            assert forall|a: int| 0 <= a < groups.len() && (#[trigger] groups[a]).0 == y implies posts_of_year(
                flatten_groups(groups),
                y,
            ) == groups[a].1 by {
                assert(a < groups.len() - 1);
                assert(front[a] == groups[a]);
            }
            if forall|a: int| 0 <= a < groups.len() ==> (#[trigger] groups[a]).0 != y {
                assert forall|a: int| 0 <= a < front.len() implies (#[trigger] front[a]).0 != y by {
                    assert(front[a] == groups[a]);
                }
            }
        }
    }
}

/// Every post among the groups' posts has its year's group.
proof fn lemma_flatten_years_covered(groups: Seq<(i32, Seq<PostView>)>, k: int)
    requires
        groups_of_one_year(groups),
        0 <= k < flatten_groups(groups).len(),
    ensures
        exists|a: int| 0 <= a < groups.len() && (#[trigger] groups[a]).0 == flatten_groups(groups)[k].publish_date.year,
    decreases groups.len(),
{
    let front = groups.drop_last();
    let last = groups.last();
    assert(groups.len() > 0);
    assert(groups[groups.len() - 1] == last);
    let n = flatten_groups(front).len();
    if k < n {
        assert(groups_of_one_year(front)) by {
            assert forall|a: int| 0 <= a < front.len() implies front[a].1.len() > 0 && forall|j: int|
                0 <= j < front[a].1.len() ==> (#[trigger] front[a].1[j]).publish_date.year == front[a].0 by {
                assert(front[a] == groups[a]);
            }
        }
        lemma_flatten_years_covered(front, k);
        let a = choose|a: int| 0 <= a < front.len() && (#[trigger] front[a]).0 == flatten_groups(front)[k].publish_date.year;
        assert(front[a] == groups[a]);
    } else {
        assert(flatten_groups(groups)[k] == last.1[k - n]);
        assert(last.1[k - n].publish_date.year == last.0);
    }
}

/// Grouping by year: when the groups, read in turn, are the posts, their
/// years strictly decrease, and each group holds only posts of its year,
/// then each group is exactly the posts of its year, in order, and every
/// post's year has a group.
pub proof fn law_year_groups_are_year_filters(groups: Seq<(i32, Seq<PostView>)>, posts: Seq<PostView>)
    requires
        flatten_groups(groups) == posts,
        years_descending(groups),
        groups_of_one_year(groups),
    ensures
        forall|a: int| 0 <= a < groups.len() ==> (#[trigger] groups[a]).1 == posts_of_year(posts, groups[a].0),
        forall|k: int| 0 <= k < posts.len() ==> exists|a: int| 0 <= a < groups.len() && (#[trigger] groups[a]).0
            == (#[trigger] posts[k]).publish_date.year,
{
    assert forall|a: int| 0 <= a < groups.len() implies (#[trigger] groups[a]).1 == posts_of_year(posts, groups[a].0) by {
        lemma_flatten_year(groups, groups[a].0);
    }
    assert forall|k: int| 0 <= k < posts.len() implies exists|a: int| 0 <= a < groups.len() && (#[trigger] groups[a]).0
        == (#[trigger] posts[k]).publish_date.year by {
        lemma_flatten_years_covered(groups, k);
    }
}

/// Deterministic order: two loads serving the same posts and modules, in
/// whatever order their files came, serve them in the same order.
pub proof fn law_served_order_depends_only_on_content(
    first: RepositoryView,
    first_scan: ScanView,
    second: RepositoryView,
    second_scan: ScanView,
    include_drafts: bool,
)
    requires
        serves_load(first, first_scan, include_drafts),
        serves_load(second, second_scan, include_drafts),
        visible_posts(first_scan, include_drafts).to_multiset() == visible_posts(second_scan, include_drafts).to_multiset(),
        first_scan.data->0.modules.to_multiset() == second_scan.data->0.modules.to_multiset(),
    ensures
        first.posts == second.posts,
        first.modules == second.modules,
{
    lemma_posts_in_order_unique(first.posts, second.posts);
    lemma_modules_in_order_unique(first.modules, second.modules);
}

/// Drafts: without drafts included no served post is a draft; with drafts
/// included every post read is served.
pub proof fn law_drafts_served_only_when_included(v: RepositoryView, st: ScanView, include_drafts: bool)
    requires
        serves_load(v, st, include_drafts),
    ensures
        !include_drafts ==> forall|i: int| 0 <= i < v.posts.len() ==> !(#[trigger] v.posts[i]).draft,
        include_drafts ==> v.posts.to_multiset() == scanned_posts(st).to_multiset(),
{
    broadcast use vstd::seq_lib::group_to_multiset_ensures;

    let keep = |p: PostView| include_drafts || !p.draft;
    if include_drafts {
        assert(scanned_posts(st).filter(keep) == scanned_posts(st)) by {
            lemma_filter_keeps_all(scanned_posts(st), keep);
        }
    } else {
        assert forall|i: int| 0 <= i < v.posts.len() implies !(#[trigger] v.posts[i]).draft by {
            assert(v.posts.to_multiset().contains(v.posts[i]));
            assert(visible_posts(st, include_drafts).contains(v.posts[i]));
            let k = choose|k: int| 0 <= k < scanned_posts(st).filter(keep).len() && scanned_posts(st).filter(keep)[k]
                == v.posts[i];
            scanned_posts(st).lemma_filter_pred(keep, k);
        }
    }
}

/// A filter whose predicate every element meets keeps the whole sequence.
proof fn lemma_filter_keeps_all(s: Seq<PostView>, keep: spec_fn(PostView) -> bool)
    requires
        forall|i: int| 0 <= i < s.len() ==> keep(#[trigger] s[i]),
    ensures
        s.filter(keep) == s,
    decreases s.len(),
{
    if s.len() == 0 {
        assert(s.filter(keep) =~= s);
    } else {
        let front = s.drop_last();
        lemma_filter_keeps_all(front, keep);
        assert(s =~= front.push(s.last()));
        front.lemma_filter_push(s.last(), keep);
    }
}

/// Filtering keeps the post order.
proof fn lemma_filter_in_order(s: Seq<PostView>, keep: spec_fn(PostView) -> bool)
    requires
        posts_in_order(s),
    ensures
        posts_in_order(s.filter(keep)),
    decreases s.len(),
{
    if s.len() > 0 {
        let front = s.drop_last();
        assert(posts_in_order(front));
        lemma_filter_in_order(front, keep);
        assert(s =~= front.push(s.last()));
        front.lemma_filter_push(s.last(), keep);
        if keep(s.last()) {
            let f = front.filter(keep);
            let g = f.push(s.last());
            assert forall|i: int, j: int| 0 <= i < j < g.len() implies post_before(#[trigger] g[i], #[trigger] g[j]) by {
                if j == g.len() - 1 {
                    assert(front.filter(keep).contains(f[i]));
                    front.lemma_filter_contains_rev(keep, f[i]);
                    let k = choose|k: int| 0 <= k < front.len() && front[k] == f[i];
                    assert(s[k] == f[i]);
                    assert(post_before(s[k], s[s.len() - 1]));
                } else {
                    assert(g[i] == f[i]);
                    assert(g[j] == f[j]);
                }
            }
        }
    } else {
        assert(s.filter(keep) =~= s);
    }
}

/// Lookups: in a consistent repository a slug names at most one page and at
/// most one post, and a name at most one module, so a lookup that finds one
/// finds the one served.
pub proof fn law_lookups_name_one_item(v: RepositoryView)
    requires
        is_consistent(v),
    ensures
        forall|i: int, j: int| 0 <= i < v.pages.len() && 0 <= j < v.pages.len() && (#[trigger] v.pages[i]).slug
            == (#[trigger] v.pages[j]).slug ==> i == j,
        forall|i: int, j: int| 0 <= i < v.posts.len() && 0 <= j < v.posts.len() && (#[trigger] v.posts[i]).slug
            == (#[trigger] v.posts[j]).slug ==> i == j,
        forall|i: int, j: int| 0 <= i < v.modules.len() && 0 <= j < v.modules.len() && (#[trigger] v.modules[i]).name
            == (#[trigger] v.modules[j]).name ==> i == j,
{
    assert forall|i: int, j: int| 0 <= i < v.modules.len() && 0 <= j < v.modules.len() && (#[trigger] v.modules[i]).name
        == (#[trigger] v.modules[j]).name implies i == j by {
        lemma_seq_lt_irreflexive(v.modules[i].name);
    }
}

/// Tags: the tag list names exactly the tags whose lookup finds posts, once
/// each and by name, and each count is the number of posts the lookup
/// finds; those posts come newest first, as all served posts do.
pub proof fn law_tag_list_matches_tag_lookups(v: RepositoryView, tags: Seq<TagSummaryView>)
    requires
        is_consistent(v),
        summarizes_tags(tags, v.posts),
    ensures
        forall|i: int| 0 <= i < tags.len() ==> (#[trigger] tags[i]).post_count == posts_tagged(v.posts, tags[i].name).len()
            && tags[i].post_count > 0,
        forall|tag: Seq<char>| tag_used(v.posts, tag) <==> exists|i: int| 0 <= i < tags.len() && (#[trigger] tags[i]).name
            == tag,
        forall|tag: Seq<char>| #[trigger] posts_in_order(posts_tagged(v.posts, tag)),
{
    assert forall|i: int| 0 <= i < tags.len() implies (#[trigger] tags[i]).post_count == posts_tagged(
        v.posts,
        tags[i].name,
    ).len() && tags[i].post_count > 0 by {
        let t = tags[i].name;
        assert(tag_used(v.posts, t));
        let k = choose|k: int| 0 <= k < v.posts.len() && has_tag(#[trigger] v.posts[k], t);
        v.posts.lemma_filter_contains(|p: PostView| has_tag(p, t), k);
    }
    assert forall|tag: Seq<char>| tag_used(v.posts, tag) <== exists|i: int| 0 <= i < tags.len() && (#[trigger] tags[i]).name
        == tag by {
    }
    assert forall|tag: Seq<char>| #[trigger] posts_in_order(posts_tagged(v.posts, tag)) by {
        lemma_filter_in_order(v.posts, |p: PostView| has_tag(p, tag));
    }
}

/// Year groups keep the post order: within each group, newest first.
pub proof fn law_year_groups_newest_first(groups: Seq<(i32, Seq<PostView>)>, posts: Seq<PostView>)
    requires
        posts_in_order(posts),
        forall|a: int| 0 <= a < groups.len() ==> (#[trigger] groups[a]).1 == posts_of_year(posts, groups[a].0),
    ensures
        forall|a: int| 0 <= a < groups.len() ==> posts_in_order(#[trigger] groups[a].1),
{
    assert forall|a: int| 0 <= a < groups.len() implies posts_in_order(#[trigger] groups[a].1) by {
        let y = groups[a].0;
        lemma_filter_in_order(posts, |p: PostView| p.publish_date.year == y);
    }
}

/// The first `n` files are all held by a scan state: the site data file
/// as its data, each page file among its pages and each post file among its
/// posts, by path; no other kind of file is among them.
pub open spec fn holds_every_file(files: Seq<(Seq<char>, Seq<u8>)>, st: ScanView, n: nat) -> bool {
    forall|i: int| #![trigger files[i]] 0 <= i < n ==> match file_role(files[i].0) {
        FileRole::Data => st.data is Some,
        FileRole::Page => exists|k: int| 0 <= k < st.pages.len() && st.pages[k].1 == files[i].0,
        FileRole::Post => exists|k: int| 0 <= k < st.posts.len() && st.posts[k].1 == files[i].0,
        FileRole::Other => false,
    }
}

proof fn lemma_scan_holds_every_file(files: Seq<(Seq<char>, Seq<u8>)>, outcomes: Seq<ParseOutcomeView>, n: nat)
    requires
        n <= files.len(),
        n <= outcomes.len(),
        scan(files, outcomes, n) is Ok,
    ensures
        holds_every_file(files, scan(files, outcomes, n)->Ok_0, n),
    decreases n,
{
    if n > 0 {
        let prev = (n - 1) as nat;
        lemma_scan_holds_every_file(files, outcomes, prev);
        let st = scan(files, outcomes, prev)->Ok_0;
        let next = scan(files, outcomes, n)->Ok_0;
        let last = files[n - 1];
        assert(next.pages.len() >= st.pages.len());
        assert(forall|k: int| 0 <= k < st.pages.len() ==> next.pages[k] == st.pages[k]);
        assert(forall|k: int| 0 <= k < st.posts.len() ==> next.posts[k] == st.posts[k]);
        assert forall|i: int| #![trigger files[i]] 0 <= i < n implies match file_role(files[i].0) {
            FileRole::Data => next.data is Some,
            FileRole::Page => exists|k: int| 0 <= k < next.pages.len() && next.pages[k].1 == files[i].0,
            FileRole::Post => exists|k: int| 0 <= k < next.posts.len() && next.posts[k].1 == files[i].0,
            FileRole::Other => false,
        } by {
            if i < prev {
                match file_role(files[i].0) {
                    FileRole::Page => {
                        let k = choose|k: int| 0 <= k < st.pages.len() && st.pages[k].1 == files[i].0;
                        assert(next.pages[k] == st.pages[k]);
                    },
                    FileRole::Post => {
                        let k = choose|k: int| 0 <= k < st.posts.len() && st.posts[k].1 == files[i].0;
                        assert(next.posts[k] == st.posts[k]);
                    },
                    _ => {},
                }
            } else {
                assert(i == n - 1);
                match file_role(files[i].0) {
                    FileRole::Page => {
                        assert(next.pages[st.pages.len() as int].1 == last.0);
                    },
                    FileRole::Post => {
                        assert(next.posts[st.posts.len() as int].1 == last.0);
                    },
                    _ => {},
                }
            }
        }
    }
}

/// Nothing is skipped: a load that succeeds has read every content file,
/// keeping the site data, every page file as a page and every post file as
/// a post, and has met no file of any other kind.
pub proof fn law_no_content_file_skipped(files: Seq<(Seq<char>, Seq<u8>)>, outcomes: Seq<ParseOutcomeView>)
    requires
        outcomes.len() == files.len(),
        spec_load(files, outcomes) is Ok,
    ensures
        holds_every_file(files, spec_load(files, outcomes)->Ok_0, files.len()),
{
    lemma_scan_holds_every_file(files, outcomes, files.len());
}

/// Two strictly ordered lists of names holding the same names are equal.
proof fn lemma_names_same_contents(x: Seq<Seq<char>>, y: Seq<Seq<char>>)
    requires
        names_in_order(x),
        names_in_order(y),
        forall|t: Seq<char>| #[trigger] x.contains(t) <==> y.contains(t),
    ensures
        x == y,
    decreases x.len() + y.len(),
{
    if x.len() == 0 || y.len() == 0 {
        if x.len() > 0 {
            assert(x.contains(x[0]));
            assert(y.contains(x[0]));
        }
        if y.len() > 0 {
            assert(y.contains(y[0]));
            assert(x.contains(y[0]));
        }
        assert(x =~= y);
    } else {
        assert(x.contains(x[0]));
        assert(y.contains(y[0]));
        assert(y.contains(x[0]));
        assert(x.contains(y[0]));
        let i = choose|i: int| 0 <= i < x.len() && x[i] == y[0];
        let j = choose|j: int| 0 <= j < y.len() && y[j] == x[0];
        if i > 0 && j > 0 {
            lemma_seq_lt_asymmetric(x[0], y[0]);
        }
        if i > 0 && j == 0 {
            lemma_seq_lt_irreflexive(x[0]);
        }
        if i == 0 && j > 0 {
            lemma_seq_lt_irreflexive(y[0]);
        }
        assert(x[0] == y[0]);
        let xs = x.drop_first();
        let ys = y.drop_first();
        assert forall|t: Seq<char>| #[trigger] xs.contains(t) <==> ys.contains(t) by {
            if xs.contains(t) {
                let k = choose|k: int| 0 <= k < xs.len() && xs[k] == t;
                assert(x[k + 1] == t);
                assert(x.contains(t));
                assert(y.contains(t));
                let l = choose|l: int| 0 <= l < y.len() && y[l] == t;
                if l == 0 {
                    assert(seq_lt(x[0], x[k + 1]));
                    lemma_seq_lt_irreflexive(t);
                }
                assert(ys[l - 1] == t);
            }
            if ys.contains(t) {
                let k = choose|k: int| 0 <= k < ys.len() && ys[k] == t;
                assert(y[k + 1] == t);
                assert(y.contains(t));
                assert(x.contains(t));
                let l = choose|l: int| 0 <= l < x.len() && x[l] == t;
                if l == 0 {
                    assert(seq_lt(y[0], y[k + 1]));
                    lemma_seq_lt_irreflexive(t);
                }
                assert(xs[l - 1] == t);
            }
        }
        lemma_names_same_contents(xs, ys);
        assert(x =~= seq![x[0]] + xs);
        assert(y =~= seq![y[0]] + ys);
    }
}

/// Strictly decreasing lists of years.
pub open spec fn strictly_descending(s: Seq<i32>) -> bool {
    forall|a: int, b: int| 0 <= a < b < s.len() ==> (#[trigger] s[a]) > (#[trigger] s[b])
}

/// Two strictly decreasing lists of years holding the same years are equal.
proof fn lemma_years_same_contents(x: Seq<i32>, y: Seq<i32>)
    requires
        strictly_descending(x),
        strictly_descending(y),
        forall|v: i32| #[trigger] x.contains(v) <==> y.contains(v),
    ensures
        x == y,
    decreases x.len() + y.len(),
{
    if x.len() == 0 || y.len() == 0 {
        if x.len() > 0 {
            assert(x.contains(x[0]));
            assert(y.contains(x[0]));
        }
        if y.len() > 0 {
            assert(y.contains(y[0]));
            assert(x.contains(y[0]));
        }
        assert(x =~= y);
    } else {
        assert(x.contains(x[0]));
        assert(y.contains(y[0]));
        assert(y.contains(x[0]));
        assert(x.contains(y[0]));
        let i = choose|i: int| 0 <= i < x.len() && x[i] == y[0];
        let j = choose|j: int| 0 <= j < y.len() && y[j] == x[0];
        if i > 0 {
            assert(x[0] > x[i]);
        }
        if j > 0 {
            assert(y[0] > y[j]);
        }
        assert(x[0] == y[0]);
        let xs = x.drop_first();
        let ys = y.drop_first();
        assert forall|v: i32| #[trigger] xs.contains(v) <==> ys.contains(v) by {
            if xs.contains(v) {
                let k = choose|k: int| 0 <= k < xs.len() && xs[k] == v;
                assert(x[k + 1] == v);
                assert(x.contains(v));
                assert(y.contains(v));
                let l = choose|l: int| 0 <= l < y.len() && y[l] == v;
                if l == 0 {
                    assert(x[0] > x[k + 1]);
                }
                assert(ys[l - 1] == v);
            }
            if ys.contains(v) {
                let k = choose|k: int| 0 <= k < ys.len() && ys[k] == v;
                assert(y[k + 1] == v);
                assert(y.contains(v));
                assert(x.contains(v));
                let l = choose|l: int| 0 <= l < x.len() && x[l] == v;
                if l == 0 {
                    assert(y[0] > y[k + 1]);
                }
                assert(xs[l - 1] == v);
            }
        }
        lemma_years_same_contents(xs, ys);
        assert(x =~= seq![x[0]] + xs);
        assert(y =~= seq![y[0]] + ys);
    }
}

/// The years of year groups.
pub open spec fn group_years(groups: Seq<(i32, Seq<PostView>)>) -> Seq<i32> {
    groups.map_values(|g: (i32, Seq<PostView>)| g.0)
}

/// A year that has a group is the year of some post.
proof fn lemma_group_year_is_a_post_year(groups: Seq<(i32, Seq<PostView>)>, posts: Seq<PostView>, a: int)
    requires
        0 <= a < groups.len(),
        flatten_groups(groups) == posts,
        years_descending(groups),
        groups_of_one_year(groups),
    ensures
        exists|k: int| 0 <= k < posts.len() && (#[trigger] posts[k]).publish_date.year == groups[a].0,
{
    law_year_groups_are_year_filters(groups, posts);
    let y = groups[a].0;
    let e = groups[a].1[0];
    assert(e.publish_date.year == y);
    assert(posts_of_year(posts, y).contains(e));
    posts.lemma_filter_contains_rev(|p: PostView| p.publish_date.year == y, e);
    let k = choose|k: int| 0 <= k < posts.len() && posts[k] == e;
}

/// Every year with a group in one grouping has a group in the other.
proof fn lemma_group_years_shared(
    posts: Seq<PostView>,
    groups: Seq<(i32, Seq<PostView>)>,
    other: Seq<(i32, Seq<PostView>)>,
    v: i32,
)
    requires
        flatten_groups(groups) == posts,
        years_descending(groups),
        groups_of_one_year(groups),
        flatten_groups(other) == posts,
        years_descending(other),
        groups_of_one_year(other),
        group_years(groups).contains(v),
    ensures
        group_years(other).contains(v),
{
    let a = choose|a: int| 0 <= a < group_years(groups).len() && group_years(groups)[a] == v;
    lemma_group_year_is_a_post_year(groups, posts, a);
    let k = choose|k: int| 0 <= k < posts.len() && (#[trigger] posts[k]).publish_date.year == groups[a].0;
    law_year_groups_are_year_filters(other, posts);
    let b = choose|b: int| 0 <= b < other.len() && (#[trigger] other[b]).0 == posts[k].publish_date.year;
    assert(group_years(other)[b] == v);
}

/// The grouping by year is fixed by the posts: any two lists of year groups
/// that read in turn as the posts, with strictly decreasing years and one
/// year per non-empty group, are the same list.
pub proof fn law_year_groups_fixed_by_posts(
    posts: Seq<PostView>,
    groups: Seq<(i32, Seq<PostView>)>,
    other: Seq<(i32, Seq<PostView>)>,
)
    requires
        flatten_groups(groups) == posts,
        years_descending(groups),
        groups_of_one_year(groups),
        flatten_groups(other) == posts,
        years_descending(other),
        groups_of_one_year(other),
    ensures
        groups == other,
{
    let x = group_years(groups);
    let y = group_years(other);
    assert(strictly_descending(x)) by {
        assert forall|a: int, b: int| 0 <= a < b < x.len() implies (#[trigger] x[a]) > (#[trigger] x[b]) by {
            assert(groups[a].0 > groups[b].0);
        }
    }
    assert(strictly_descending(y)) by {
        assert forall|a: int, b: int| 0 <= a < b < y.len() implies (#[trigger] y[a]) > (#[trigger] y[b]) by {
            assert(other[a].0 > other[b].0);
        }
    }
    assert forall|v: i32| #[trigger] x.contains(v) <==> y.contains(v) by {
        if x.contains(v) {
            lemma_group_years_shared(posts, groups, other, v);
        }
        if y.contains(v) {
            lemma_group_years_shared(posts, other, groups, v);
        }
    }
    lemma_years_same_contents(x, y);
    assert(forall|a: int| 0 <= a < groups.len() ==> (#[trigger] groups[a]).1 == posts_of_year(posts, groups[a].0)) by {
        law_year_groups_are_year_filters(groups, posts);
    }
    assert(forall|a: int| 0 <= a < other.len() ==> (#[trigger] other[a]).1 == posts_of_year(posts, other[a].0)) by {
        law_year_groups_are_year_filters(other, posts);
    }
    assert forall|a: int| 0 <= a < groups.len() implies groups[a] == other[a] by {
        assert(x[a] == y[a]);
    }
    assert(groups =~= other);
}

/// The tag list is fixed by the posts: any two lists summarizing the tags
/// of the same posts are the same list.
pub proof fn law_tag_list_fixed_by_posts(posts: Seq<PostView>, tags: Seq<TagSummaryView>, other: Seq<TagSummaryView>)
    requires
        summarizes_tags(tags, posts),
        summarizes_tags(other, posts),
    ensures
        tags == other,
{
    let x = tags.map_values(|t: TagSummaryView| t.name);
    let y = other.map_values(|t: TagSummaryView| t.name);
    assert forall|t: Seq<char>| #[trigger] x.contains(t) <==> y.contains(t) by {
        if x.contains(t) {
            let a = choose|a: int| 0 <= a < x.len() && x[a] == t;
            assert(tag_used(posts, tags[a].name));
            let b = choose|b: int| 0 <= b < other.len() && (#[trigger] other[b]).name == t;
            assert(y[b] == t);
        }
        if y.contains(t) {
            let a = choose|a: int| 0 <= a < y.len() && y[a] == t;
            assert(tag_used(posts, other[a].name));
            let b = choose|b: int| 0 <= b < tags.len() && (#[trigger] tags[b]).name == t;
            assert(x[b] == t);
        }
    }
    lemma_names_same_contents(x, y);
    assert forall|a: int| 0 <= a < tags.len() implies tags[a] == other[a] by {
        assert(x[a] == y[a]);
    }
    assert(tags =~= other);
}

/// `a` comes before `b` in the order of `str`.
pub open spec fn in_text_order(a: Seq<char>, b: Seq<char>) -> bool {
    is_proper_prefix(a, b) || exists|k: int| first_difference_smaller(a, b, k)
}

/// The served posts run from the latest day to the earliest: a post listed
/// after another was published on the same day or before it.
pub proof fn law_served_posts_newest_first(v: RepositoryView)
    requires
        is_consistent(v),
    ensures
        forall|i: int, j: int|
            0 <= i < j < v.posts.len() ==> day_number((#[trigger] v.posts[j]).publish_date) <= day_number(
                (#[trigger] v.posts[i]).publish_date,
            ),
{
    assert forall|i: int, j: int| 0 <= i < j < v.posts.len() implies day_number((#[trigger] v.posts[j]).publish_date)
        <= day_number((#[trigger] v.posts[i]).publish_date) by {
        assert(post_before(v.posts[i], v.posts[j]));
        assert(v.posts[i].dates_on_calendar());
        assert(v.posts[j].dates_on_calendar());
        law_before_is_chronological(v.posts[j].publish_date, v.posts[i].publish_date);
    }
}

/// The tag list is alphabetical in the order of `str`: a name comes before
/// every name it is a proper prefix of ("go" before "golang"), and
/// otherwise by the first character where two names differ.
pub proof fn law_tag_list_in_text_order(tags: Seq<TagSummaryView>, posts: Seq<PostView>)
    requires
        summarizes_tags(tags, posts),
    ensures
        forall|i: int, j: int| 0 <= i < j < tags.len() ==> in_text_order((#[trigger] tags[i]).name, (#[trigger] tags[j]).name),
{
    let names = tags.map_values(|t: TagSummaryView| t.name);
    assert forall|i: int, j: int| 0 <= i < j < tags.len() implies in_text_order((#[trigger] tags[i]).name, (#[trigger] tags[j]).name) by {
        assert(seq_lt(names[i], names[j]));
        law_seq_lt_is_text_order(tags[i].name, tags[j].name);
    }
}

/// The served modules are listed by name in the order of `str`.
pub proof fn law_served_modules_in_text_order(v: RepositoryView)
    requires
        is_consistent(v),
    ensures
        forall|i: int, j: int|
            0 <= i < j < v.modules.len() ==> in_text_order((#[trigger] v.modules[i]).name, (#[trigger] v.modules[j]).name),
{
    assert forall|i: int, j: int| 0 <= i < j < v.modules.len() implies in_text_order(
        (#[trigger] v.modules[i]).name,
        (#[trigger] v.modules[j]).name,
    ) by {
        law_seq_lt_is_text_order(v.modules[i].name, v.modules[j].name);
    }
}

/// A module field as the site accepts it: not empty, and neither starting
/// nor ending with whitespace.
pub open spec fn is_trimmed_field(v: Seq<char>) -> bool {
    v.len() > 0 && !is_whitespace(v[0]) && !is_whitespace(v[v.len() - 1])
}

/// Every field of the module is trimmed text, its repository URL is an
/// `https` URL with a host, and its import path is the vanity path of its
/// name.
pub open spec fn module_fields_trimmed(m: GoModuleView) -> bool {
    &&& url_parse(m.repository_url) matches Some((scheme, host)) && scheme == "https"@ && host is Some
    &&& is_trimmed_field(m.repository_url)
    &&& is_trimmed_field(m.import_path)
    &&& is_trimmed_field(m.name)
    &&& is_trimmed_field(m.description)
    &&& is_trimmed_field(m.license)
    &&& m.import_path == "dathagerty.com/go/"@ + m.name
}

/// A load that succeeds has checked every module of the site data: each of
/// its fields, the description included, is non-empty and unpadded, its
/// repository is reached over `https`, and its import path is its vanity
/// path.
pub proof fn law_loaded_modules_are_trimmed(files: Seq<(Seq<char>, Seq<u8>)>, outcomes: Seq<ParseOutcomeView>)
    requires
        spec_load(files, outcomes) is Ok,
    ensures
        forall|i: int|
            0 <= i < spec_load(files, outcomes)->Ok_0.data->0.modules.len() ==> module_fields_trimmed(
                #[trigger] spec_load(files, outcomes)->Ok_0.data->0.modules[i],
            ),
{
    let st = spec_load(files, outcomes)->Ok_0;
    assert(spec_validate_site(st) is None);
    let m = st.data->0.modules;
    lemma_first_module_error_found(m, 0);
    lemma_no_module_error(m, 0);
    assert forall|i: int| 0 <= i < m.len() implies module_fields_trimmed(#[trigger] m[i]) by {
        assert(!(module_error(m, i as nat) is Some));
    }
}

/// What the repository serves of a successful load: its modules are the
/// load's, so each has trimmed fields and its vanity import path.
pub proof fn law_served_modules_are_trimmed(
    v: RepositoryView,
    files: Seq<(Seq<char>, Seq<u8>)>,
    outcomes: Seq<ParseOutcomeView>,
    include_drafts: bool,
)
    requires
        spec_load(files, outcomes) is Ok,
        serves_load(v, spec_load(files, outcomes)->Ok_0, include_drafts),
    ensures
        forall|i: int| 0 <= i < v.modules.len() ==> module_fields_trimmed(#[trigger] v.modules[i]),
{
    broadcast use vstd::seq_lib::group_to_multiset_ensures;

    let m = spec_load(files, outcomes)->Ok_0.data->0.modules;
    law_loaded_modules_are_trimmed(files, outcomes);
    assert forall|i: int| 0 <= i < v.modules.len() implies module_fields_trimmed(#[trigger] v.modules[i]) by {
        assert(v.modules.contains(v.modules[i]));
        assert(m.to_multiset().count(v.modules[i]) > 0);
        assert(m.contains(v.modules[i]));
        let j = choose|j: int| 0 <= j < m.len() && m[j] == v.modules[i];
        assert(module_fields_trimmed(m[j]));
    }
}

} // verus!
