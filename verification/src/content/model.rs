//! The content records the site serves.
use vstd::prelude::*;

use crate::text::{opt_view, strings_view};

verus! {

/// A calendar date (proleptic Gregorian), as the frontmatter writes it.
#[derive(Clone, Copy, Debug, PartialEq, Eq, Structural)]
pub struct Date {
    pub year: i32,
    pub month: u32,
    pub day: u32,
}

impl Date {
    /// A day of the calendar that `chrono` can hold; only such dates show.
    pub open spec fn on_calendar(self) -> bool {
        crate::bindings::is_calendar_date(self.year, self.month, self.day)
    }

    /// Chronological order.
    pub open spec fn before(self, other: Date) -> bool {
        ||| self.year < other.year
        ||| (self.year == other.year && self.month < other.month)
        ||| (self.year == other.year && self.month == other.month && self.day < other.day)
    }

    /// The date as `chrono` shows it (`YYYY-MM-DD`), or `None` for fields
    /// that name no date chrono can hold.
    pub fn display(&self) -> (text: Option<String>)
        ensures
            opt_view(text) == if crate::bindings::is_calendar_date(self.year, self.month, self.day) {
                Some(crate::bindings::date_text(self.year, self.month, self.day))
            } else {
                None::<Seq<char>>
            },
    {
        crate::bindings::display_date(*self)
    }

    /// Whether `self` comes strictly before `other` in time.
    pub fn is_before(&self, other: &Date) -> (b: bool)
        ensures
            b == self.before(*other),
    {
        self.year < other.year || (self.year == other.year && self.month < other.month) || (
        self.year == other.year && self.month == other.month && self.day < other.day)
    }
}

#[derive(Clone, Debug, PartialEq, Eq)]
pub struct Page {
    pub slug: String,
    pub title: String,
    pub kind: Option<String>,
    pub last_edit: Option<Date>,
    pub html: String,
}

pub struct PageView {
    pub slug: Seq<char>,
    pub title: Seq<char>,
    pub kind: Option<Seq<char>>,
    pub last_edit: Option<Date>,
    pub html: Seq<char>,
}

/// A calendar date as one number, larger for later days: the year, then
/// two decimal places each for the month and the day.
pub open spec fn day_number(d: Date) -> int {
    d.year * 10000 + d.month * 100 + d.day
}

/// `before` is the order of time: of two calendar dates, one comes before
/// the other exactly when its day number is smaller (an earlier year, or
/// the same year and an earlier month, or the same month and an earlier
/// day).
pub proof fn law_before_is_chronological(a: Date, b: Date)
    requires
        a.on_calendar(),
        b.on_calendar(),
    ensures
        a.before(b) <==> day_number(a) < day_number(b),
        a.before(b) || b.before(a) || a == b,
        !(a.before(b) && b.before(a)),
{
}

impl PageView {
    /// The page's dates are calendar days.
    pub open spec fn dates_on_calendar(self) -> bool {
        self.last_edit matches Some(d) ==> d.on_calendar()
    }
}

impl View for Page {
    type V = PageView;

    open spec fn view(&self) -> PageView {
        PageView {
            slug: self.slug@,
            title: self.title@,
            kind: opt_view(self.kind),
            last_edit: self.last_edit,
            html: self.html@,
        }
    }
}

impl Page {
    /// A copy of this page.
    pub fn duplicate(&self) -> (p: Page)
        ensures
            p@ == self@,
    {
        Page {
            slug: self.slug.clone(),
            title: self.title.clone(),
            kind: copy_opt_string(&self.kind),
            last_edit: self.last_edit,
            html: self.html.clone(),
        }
    }
}

#[derive(Clone, Debug, PartialEq, Eq)]
pub struct Post {
    pub slug: String,
    pub title: String,
    pub publish_date: Date,
    pub last_edit: Option<Date>,
    pub kind: Option<String>,
    pub draft: bool,
    pub summary: Option<String>,
    pub tags: Vec<String>,
    pub html: String,
}

pub struct PostView {
    pub slug: Seq<char>,
    pub title: Seq<char>,
    pub publish_date: Date,
    pub last_edit: Option<Date>,
    pub kind: Option<Seq<char>>,
    pub draft: bool,
    pub summary: Option<Seq<char>>,
    pub tags: Seq<Seq<char>>,
    pub html: Seq<char>,
}

impl PostView {
    /// The post's dates are calendar days.
    pub open spec fn dates_on_calendar(self) -> bool {
        &&& self.publish_date.on_calendar()
        &&& self.last_edit matches Some(d) ==> d.on_calendar()
    }
}

impl View for Post {
    type V = PostView;

    open spec fn view(&self) -> PostView {
        PostView {
            slug: self.slug@,
            title: self.title@,
            publish_date: self.publish_date,
            last_edit: self.last_edit,
            kind: opt_view(self.kind),
            draft: self.draft,
            summary: opt_view(self.summary),
            tags: strings_view(self.tags@),
            html: self.html@,
        }
    }
}

impl Post {
    /// A copy of this post.
    pub fn duplicate(&self) -> (p: Post)
        ensures
            p@ == self@,
    {
        Post {
            slug: self.slug.clone(),
            title: self.title.clone(),
            publish_date: self.publish_date,
            last_edit: self.last_edit,
            kind: copy_opt_string(&self.kind),
            draft: self.draft,
            summary: copy_opt_string(&self.summary),
            tags: copy_strings(&self.tags),
            html: self.html.clone(),
        }
    }
}

#[derive(Clone, Debug, PartialEq, Eq)]
pub struct TagSummary {
    pub name: String,
    pub post_count: usize,
}

pub struct TagSummaryView {
    pub name: Seq<char>,
    pub post_count: usize,
}

impl View for TagSummary {
    type V = TagSummaryView;

    open spec fn view(&self) -> TagSummaryView {
        TagSummaryView { name: self.name@, post_count: self.post_count }
    }
}

impl TagSummary {
    /// A copy of this summary.
    pub fn duplicate(&self) -> (t: TagSummary)
        ensures
            t@ == self@,
    {
        TagSummary { name: self.name.clone(), post_count: self.post_count }
    }
}

#[derive(Clone, Debug, PartialEq, Eq)]
pub struct GoModule {
    pub repository_url: String,
    pub import_path: String,
    pub name: String,
    pub description: String,
    pub license: String,
}

pub struct GoModuleView {
    pub repository_url: Seq<char>,
    pub import_path: Seq<char>,
    pub name: Seq<char>,
    pub description: Seq<char>,
    pub license: Seq<char>,
}

impl View for GoModule {
    type V = GoModuleView;

    open spec fn view(&self) -> GoModuleView {
        GoModuleView {
            repository_url: self.repository_url@,
            import_path: self.import_path@,
            name: self.name@,
            description: self.description@,
            license: self.license@,
        }
    }
}

impl GoModule {
    /// A copy of this module record.
    pub fn duplicate(&self) -> (m: GoModule)
        ensures
            m@ == self@,
    {
        GoModule {
            repository_url: self.repository_url.clone(),
            import_path: self.import_path.clone(),
            name: self.name.clone(),
            description: self.description.clone(),
            license: self.license.clone(),
        }
    }
}

#[derive(Clone, Debug, PartialEq, Eq)]
pub struct Branding {
    pub word: String,
    pub slogan: String,
}

pub struct BrandingView {
    pub word: Seq<char>,
    pub slogan: Seq<char>,
}

impl View for Branding {
    type V = BrandingView;

    open spec fn view(&self) -> BrandingView {
        BrandingView { word: self.word@, slogan: self.slogan@ }
    }
}

impl Branding {
    /// A copy of this branding.
    pub fn duplicate(&self) -> (b: Branding)
        ensures
            b@ == self@,
    {
        Branding { word: self.word.clone(), slogan: self.slogan.clone() }
    }
}

/// A copy of an optional string.
pub fn copy_opt_string(o: &Option<String>) -> (c: Option<String>)
    ensures
        opt_view(c) == opt_view(*o),
{
    match o {
        Some(s) => Some(s.clone()),
        None => None,
    }
}

/// A copy of a list of strings.
pub fn copy_strings(v: &Vec<String>) -> (c: Vec<String>)
    ensures
        strings_view(c@) == strings_view(v@),
{
    let mut c: Vec<String> = Vec::new();
    let mut i: usize = 0;
    while i < v.len()
        invariant
            0 <= i <= v.len(),
            strings_view(c@) == strings_view(v@.subrange(0, i as int)),
        decreases v.len() - i,
    {
        c.push(v[i].clone());
        assert(strings_view(v@.subrange(0, i + 1)) =~= strings_view(v@.subrange(0, i as int)).push(v@[i as int]@));
        assert(strings_view(c@) =~= strings_view(v@.subrange(0, i + 1)));
        i += 1;
    }
    assert(v@.subrange(0, v.len() as int) =~= v@);
    c
}

} // verus!
