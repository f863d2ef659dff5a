//! Posts: one markdown file with frontmatter parsed into a `Post`,
//! and the whole content directory parsed, sorted by date (newest
//! first, ties in input order) and filtered by publish state.

use vstd::prelude::*;

use crate::date::{iso_of, format_iso, Date};
use crate::frontmatter::{
    find_delim, first_delim_from, fold_lines, parse_frontmatter, parse_frontmatter_spec,
    split_lines_from, strip_delims, strip_delims_from,
};
use crate::text::{str_to_chars, string_of_chars, subrange_chars};

verus! {

/// Why loading the post collection failed. All of these are fatal at
/// startup: the server must not come up with a partial post set.
#[derive(Clone, Copy, PartialEq, Eq, Structural, Debug)]
pub enum PostError {
    /// The content directory could not be listed.
    ContentDirectory,
    /// A file in the content directory does not carry the expected
    /// `.md` extension.
    InvalidFilename,
    /// A file could not be read.
    Io,
    /// The file has fewer than two frontmatter delimiters, so no
    /// frontmatter block can be cut out of it.
    MalformedFrontmatter,
    /// The frontmatter block does not fit the key/value schema: a
    /// required `title` or `date` is missing, a date or `published`
    /// value is malformed, or a line has no `key: value` shape.
    FrontmatterSchema,
}

/// The metadata of one post, as given by its frontmatter.
#[derive(Debug)]
pub struct PostMeta {
    pub title: String,
    pub external_url: Option<String>,
    pub date: Date,
    pub iso_timestamp: String,
    pub description: Option<String>,
    pub published: Option<bool>,
}

/// One article: its URL-safe identifier, rendered HTML body, and
/// metadata. Built once at startup and immutable afterwards.
#[derive(Debug)]
pub struct Post {
    pub slug: String,
    pub content: String,
    pub meta: PostMeta,
}

/// A post at the specification level: every field as a mathematical
/// value.
pub struct SpecPost {
    pub slug: Seq<char>,
    pub title: Seq<char>,
    pub external_url: Option<Seq<char>>,
    pub date: Date,
    pub iso_timestamp: Seq<char>,
    pub description: Option<Seq<char>>,
    pub published: Option<bool>,
    pub content: Seq<char>,
}

impl Post {
    pub open spec fn abs(self) -> SpecPost {
        SpecPost {
            slug: self.slug@,
            title: self.meta.title@,
            external_url: match self.meta.external_url {
                Option::Some(s) => Some(s@),
                Option::None => None,
            },
            date: self.meta.date,
            iso_timestamp: self.meta.iso_timestamp@,
            description: match self.meta.description {
                Option::Some(s) => Some(s@),
                Option::None => None,
            },
            published: self.meta.published,
            content: self.content@,
        }
    }
}

pub open spec fn abs_seq(s: Seq<Post>) -> Seq<SpecPost> {
    s.map_values(|p: Post| p.abs())
}

// ---------------------------------------------------------------------
// Markdown rendering, through the outside renderer.
// ---------------------------------------------------------------------
/// The HTML that the markdown renderer produces for a body text, under
/// GitHub-flavored markdown extensions with raw HTML passed through.
pub uninterp spec fn html_of(s: Seq<char>) -> Seq<char>;

/// Relies on `markdown::to_html_with_options` with `Options::gfm()`
/// plus `allow_dangerous_html`: the rendering depends on the input
/// text alone. The crate's documentation states that conversion can
/// fail only when MDX options are enabled; these options do not
/// enable them.
#[verifier::external_body]
fn render_markdown(body: &Vec<char>) -> (r: String)
    ensures
        r@ == html_of(body@),
{
    let text: String = body.iter().collect();
    let mut options = markdown::Options::gfm();
    options.compile.allow_dangerous_html = true;
    match markdown::to_html_with_options(&text, &options) {
        Ok(html) => html,
        Err(_) => String::new(),
    }
}

// ---------------------------------------------------------------------
// One file parsed into a post.
// ---------------------------------------------------------------------
/// The slug of a filename: the name with the `.md` extension removed;
/// `None` when the extension is absent.
pub open spec fn slug_of(f: Seq<char>) -> Option<Seq<char>> {
    if f.len() >= 3 && f[f.len() - 3] == '.' && f[f.len() - 2] == 'm' && f[f.len() - 1] == 'd' {
        Some(f.take(f.len() - 3))
    } else {
        None
    }
}

/// What parsing one file yields: the slug from the filename, the
/// frontmatter block between the first two `---` delimiters parsed as
/// the metadata, the body rendered to HTML, and the timestamp derived
/// from the date — or the first error the steps hit.
pub open spec fn parse_post_spec(f: Seq<char>, c: Seq<char>) -> Result<SpecPost, PostError> {
    match slug_of(f) {
        Option::None => Err(PostError::InvalidFilename),
        Option::Some(slug) => match first_delim_from(c, 0) {
            Option::None => Err(PostError::MalformedFrontmatter),
            Option::Some(i) => match first_delim_from(c, i + 3) {
                Option::None => Err(PostError::MalformedFrontmatter),
                Option::Some(j) => match parse_frontmatter_spec(c.subrange(i + 3, j)) {
                    Option::None => Err(PostError::FrontmatterSchema),
                    Option::Some(a) => Ok(
                        SpecPost {
                            slug,
                            title: a.title.unwrap(),
                            external_url: a.external_url,
                            date: a.date.unwrap(),
                            iso_timestamp: iso_of(a.date.unwrap()),
                            description: a.description,
                            published: a.published,
                            content: html_of(strip_delims_from(c, j + 3)),
                        },
                    ),
                },
            },
        },
    }
}

proof fn lemma_fold_date_wf(lines: Seq<Seq<char>>)
    ensures
        match fold_lines(lines) {
            Option::Some(a) => match a.date {
                Option::Some(d) => d.wf(),
                Option::None => true,
            },
            Option::None => true,
        },
    decreases lines.len(),
{
    if lines.len() > 0 {
        lemma_fold_date_wf(lines.drop_last());
    }
}

fn opt_string(v: Option<Vec<char>>) -> (r: Option<String>)
    ensures
        match r {
            Option::Some(s) => v matches Option::Some(cv) && s@ == cv@,
            Option::None => v is None,
        },
{
    match v {
        Option::Some(cv) => Option::Some(string_of_chars(&cv)),
        Option::None => Option::None,
    }
}

/// Parse one content file, named `filename`, into a post.
pub fn parse_post(filename: &str, content: &str) -> (r: Result<Post, PostError>)
    ensures
        match r {
            Ok(p) => parse_post_spec(filename@, content@) == Ok::<SpecPost, PostError>(p.abs())
                && p.meta.date.wf(),
            Err(e) => parse_post_spec(filename@, content@) == Err::<SpecPost, PostError>(e),
        },
{
    let fchars = str_to_chars(filename);
    let n = fchars.len();
    if n < 3 || !(fchars[n - 3] == '.' && fchars[n - 2] == 'm' && fchars[n - 1] == 'd') {
        return Err(PostError::InvalidFilename);
    }
    let slug_chars = subrange_chars(&fchars, 0, n - 3);
    proof {
        assert(fchars@.subrange(0, n - 3) =~= filename@.take(filename@.len() - 3));
    }
    let slug = string_of_chars(&slug_chars);
    let c = str_to_chars(content);
    let clen = c.len();
    let i = match find_delim(&c, 0) {
        Option::Some(i) => i,
        Option::None => {
            return Err(PostError::MalformedFrontmatter);
        },
    };
    proof {
        assert(i + 3 <= clen);
    }
    let j = match find_delim(&c, i + 3) {
        Option::Some(j) => j,
        Option::None => {
            return Err(PostError::MalformedFrontmatter);
        },
    };
    let fm = subrange_chars(&c, i + 3, j);
    let body = strip_delims(&c, j + 3);
    let fields = match parse_frontmatter(&fm) {
        Option::Some(a) => a,
        Option::None => {
            return Err(PostError::FrontmatterSchema);
        },
    };
    proof {
        lemma_fold_date_wf(split_lines_from(fm@, 0));
    }
    let date = match fields.date {
        Option::Some(d) => d,
        Option::None => {
            return Err(PostError::FrontmatterSchema);  // dead branch: parse_frontmatter guarantees a date
        },
    };
    let title = match fields.title {
        Option::Some(t) => string_of_chars(&t),
        Option::None => {
            return Err(PostError::FrontmatterSchema);  // dead branch: parse_frontmatter guarantees a title
        },
    };
    let external_url = opt_string(fields.external_url);
    let description = opt_string(fields.description);
    let iso_timestamp = format_iso(&date);
    let content_html = render_markdown(&body);
    let post = Post {
        slug,
        content: content_html,
        meta: PostMeta {
            title,
            external_url,
            date,
            iso_timestamp,
            description,
            published: fields.published,
        },
    };
    Ok(post)
}

// ---------------------------------------------------------------------
// Ordering: date descending, ties keeping input order.
// ---------------------------------------------------------------------
/// `a` is strictly before `b` in calendar order.
pub open spec fn date_lt(a: Date, b: Date) -> bool {
    !b.spec_le(a)
}

/// Where a stable descending insertion puts `p`: before the first
/// element strictly older than it, so after every element of the same
/// date.
pub open spec fn insert_pos(s: Seq<SpecPost>, p: SpecPost) -> int
    decreases s.len(),
{
    if s.len() == 0 {
        0
    } else if date_lt(s[0].date, p.date) {
        0
    } else {
        1 + insert_pos(s.drop_first(), p)
    }
}

pub open spec fn insert_sorted_spec(s: Seq<SpecPost>, p: SpecPost) -> Seq<SpecPost> {
    s.insert(insert_pos(s, p), p)
}

/// The post sequence in date-descending order: each element of the
/// input, in input order, stably inserted into the sorted prefix.
pub open spec fn sort_spec(s: Seq<SpecPost>) -> Seq<SpecPost>
    decreases s.len(),
{
    if s.len() == 0 {
        Seq::empty()
    } else {
        insert_sorted_spec(sort_spec(s.drop_last()), s.last())
    }
}

proof fn lemma_insert_pos_at(s: Seq<SpecPost>, p: SpecPost, k: int)
    requires
        0 <= k <= s.len(),
        forall|j: int| 0 <= j < k ==> !date_lt(s[j].date, p.date),
        k == s.len() || date_lt(s[k].date, p.date),
    ensures
        insert_pos(s, p) == k,
    decreases k,
{
    if k > 0 {
        lemma_insert_pos_at(s.drop_first(), p, k - 1);
    }
}

/// Insert `p` into the date-descending vector `out`, after any posts
/// of the same date already there.
fn insert_sorted(out: &mut Vec<Post>, p: Post)
    ensures
        abs_seq(final(out)@) == insert_sorted_spec(abs_seq(old(out)@), p.abs()),
{
    let ghost s0 = abs_seq(old(out)@);
    let n = out.len();
    let mut k: usize = 0;
    while k < n && !(out[k].meta.date.le(&p.meta.date) && !p.meta.date.le(&out[k].meta.date))
        invariant
            k <= n == out@.len(),
            out@.len() == s0.len(),
            abs_seq(out@) == s0,
            forall|j: int| 0 <= j < k ==> !date_lt(s0[j].date, p.abs().date),
        decreases n - k,
    {
        proof {
            assert(s0[k as int] == out@[k as int].abs());
        }
        k += 1;
    }
    proof {
        if k < n {
            assert(s0[k as int] == out@[k as int].abs());
            assert(date_lt(s0[k as int].date, p.abs().date));
        }
        lemma_insert_pos_at(s0, p.abs(), k as int);
    }
    out.insert(k, p);
    proof {
        assert(abs_seq(out@) =~= s0.insert(k as int, p.abs()));
    }
}

/// Sort the posts by date, newest first; posts of the same date keep
/// their input order (the sort is stable).
pub fn sort_posts(input: Vec<Post>) -> (out: Vec<Post>)
    ensures
        abs_seq(out@) == sort_spec(abs_seq(input@)),
{
    let ghost orig = abs_seq(input@);
    let mut input = input;
    let mut out: Vec<Post> = Vec::new();
    let ghost mut i: int = 0;
    proof {
        assert(orig.take(0) =~= Seq::<SpecPost>::empty());
        assert(abs_seq(input@) =~= orig.skip(0));
        assert(abs_seq(out@) =~= Seq::<SpecPost>::empty());
    }
    while input.len() > 0
        invariant
            0 <= i <= orig.len(),
            i + input@.len() == orig.len(),
            abs_seq(input@) == orig.skip(i),
            abs_seq(out@) == sort_spec(orig.take(i)),
        decreases input@.len(),
    {
        let ghost in0 = input@;
        let p = input.remove(0);
        proof {
            assert(p.abs() == abs_seq(in0)[0]);
            assert(p.abs() == orig[i]);
            assert(input@ == in0.remove(0));
            assert forall|k: int| 0 <= k < input@.len() implies abs_seq(input@)[k] == orig.skip(
                i + 1,
            )[k] by {
                assert(input@[k] == in0[k + 1]);
                assert(abs_seq(in0)[k + 1] == in0[k + 1].abs());
            }
            assert(abs_seq(input@) =~= orig.skip(i + 1));
            assert(orig.take(i + 1).drop_last() =~= orig.take(i));
            assert(orig.take(i + 1).last() == orig[i]);
        }
        insert_sorted(&mut out, p);
        proof {
            i = i + 1;
        }
    }
    proof {
        assert(orig.take(i) =~= orig);
    }
    out
}

// ---------------------------------------------------------------------
// Publish-state filtering.
// ---------------------------------------------------------------------
/// A post stays in the collection unless its frontmatter said
/// `published: false`; absence of the field means published.
pub open spec fn published_keep(p: SpecPost) -> bool {
    p.published != Some(false)
}

pub open spec fn filter_published(s: Seq<SpecPost>) -> Seq<SpecPost>
    decreases s.len(),
{
    if s.len() == 0 {
        Seq::empty()
    } else {
        filter_published(s.drop_last()) + if published_keep(s.last()) {
            seq![s.last()]
        } else {
            Seq::empty()
        }
    }
}

/// Drop the posts whose frontmatter said `published: false`.
pub fn filter_posts(input: Vec<Post>) -> (out: Vec<Post>)
    ensures
        abs_seq(out@) == filter_published(abs_seq(input@)),
{
    let ghost orig = abs_seq(input@);
    let mut input = input;
    let mut out: Vec<Post> = Vec::new();
    let ghost mut i: int = 0;
    proof {
        assert(orig.take(0) =~= Seq::<SpecPost>::empty());
        assert(abs_seq(input@) =~= orig.skip(0));
        assert(abs_seq(out@) =~= filter_published(orig.take(0)));
    }
    while input.len() > 0
        invariant
            0 <= i <= orig.len(),
            i + input@.len() == orig.len(),
            abs_seq(input@) == orig.skip(i),
            abs_seq(out@) == filter_published(orig.take(i)),
        decreases input@.len(),
    {
        let ghost in0 = input@;
        let ghost out0 = abs_seq(out@);
        let p = input.remove(0);
        proof {
            assert(p.abs() == abs_seq(in0)[0]);
            assert(p.abs() == orig[i]);
            assert(input@ == in0.remove(0));
            assert forall|k: int| 0 <= k < input@.len() implies abs_seq(input@)[k] == orig.skip(
                i + 1,
            )[k] by {
                assert(input@[k] == in0[k + 1]);
                assert(abs_seq(in0)[k + 1] == in0[k + 1].abs());
            }
            assert(abs_seq(input@) =~= orig.skip(i + 1));
            assert(orig.take(i + 1).drop_last() =~= orig.take(i));
            assert(orig.take(i + 1).last() == orig[i]);
        }
        let keep = match p.meta.published {
            Option::Some(false) => false,
            _ => true,
        };
        if keep {
            out.push(p);
            proof {
                assert(abs_seq(out@) =~= out0 + seq![orig[i]]);
            }
        } else {
            proof {
                assert(abs_seq(out@) =~= out0 + Seq::<SpecPost>::empty());
            }
        }
        proof {
            i = i + 1;
        }
    }
    proof {
        assert(orig.take(i) =~= orig);
    }
    out
}

// ---------------------------------------------------------------------
// The whole collection.
// ---------------------------------------------------------------------
/// Every file parsed, in order; the first failing file's error wins.
pub open spec fn parse_all(files: Seq<(Seq<char>, Seq<char>)>) -> Result<
    Seq<SpecPost>,
    PostError,
>
    decreases files.len(),
{
    if files.len() == 0 {
        Ok(Seq::empty())
    } else {
        match parse_all(files.drop_last()) {
            Err(e) => Err(e),
            Ok(acc) => match parse_post_spec(files.last().0, files.last().1) {
                Err(e) => Err(e),
                Ok(p) => Ok(acc.push(p)),
            },
        }
    }
}

pub open spec fn files_abs(s: Seq<(String, String)>) -> Seq<(Seq<char>, Seq<char>)> {
    s.map_values(|f: (String, String)| (f.0@, f.1@))
}

/// What loading the collection yields: every file parsed, the posts
/// sorted by date descending (stable), and unpublished posts dropped.
pub open spec fn load_posts_spec(files: Seq<(Seq<char>, Seq<char>)>) -> Result<
    Seq<SpecPost>,
    PostError,
> {
    match parse_all(files) {
        Err(e) => Err(e),
        Ok(ps) => Ok(filter_published(sort_spec(ps))),
    }
}

proof fn lemma_parse_all_err(files: Seq<(Seq<char>, Seq<char>)>, i: int)
    requires
        0 <= i <= files.len(),
        parse_all(files.take(i)) is Err,
    ensures
        parse_all(files) == parse_all(files.take(i)),
    decreases files.len() - i,
{
    if i == files.len() {
        assert(files.take(i) =~= files);
    } else {
        assert(files.take(i + 1).drop_last() =~= files.take(i));
        lemma_parse_all_err(files, i + 1);
    }
}

/// Load the post collection from the files of the content directory,
/// given as (filename, text) pairs in directory order.
pub fn load_posts(files: &Vec<(String, String)>) -> (r: Result<Vec<Post>, PostError>)
    ensures
        match r {
            Ok(v) => load_posts_spec(files_abs(files@)) == Ok::<Seq<SpecPost>, PostError>(
                abs_seq(v@),
            ),
            Err(e) => load_posts_spec(files_abs(files@)) == Err::<Seq<SpecPost>, PostError>(e),
        },
{
    let ghost fs = files_abs(files@);
    let mut parsed: Vec<Post> = Vec::new();
    let n = files.len();
    proof {
        assert(fs.take(0) =~= Seq::<(Seq<char>, Seq<char>)>::empty());
        assert(abs_seq(parsed@) =~= Seq::<SpecPost>::empty());
    }
    let mut i: usize = 0;
    while i < n
        invariant
            i <= n == files@.len(),
            fs == files_abs(files@),
            fs.len() == n,
            parse_all(fs.take(i as int)) == Ok::<Seq<SpecPost>, PostError>(abs_seq(parsed@)),
        decreases n - i,
    {
        let ghost p0 = abs_seq(parsed@);
        proof {
            assert(fs[i as int] == (files@[i as int].0@, files@[i as int].1@));
            assert(fs.take(i + 1).drop_last() =~= fs.take(i as int));
            assert(fs.take(i + 1).last() == fs[i as int]);
        }
        match parse_post(files[i].0.as_str(), files[i].1.as_str()) {
            Ok(p) => {
                let ghost pa = p.abs();
                parsed.push(p);
                proof {
                    assert(abs_seq(parsed@) =~= p0.push(pa));
                }
            },
            Err(e) => {
                proof {
                    lemma_parse_all_err(fs, i + 1);
                }
                return Err(e);
            },
        }
        i += 1;
    }
    proof {
        assert(fs.take(n as int) =~= fs);
    }
    let sorted = sort_posts(parsed);
    let result = filter_posts(sorted);
    Ok(result)
}

// ---------------------------------------------------------------------
// Read-only access for the serving layer.
// ---------------------------------------------------------------------
fn clone_opt_string(v: &Option<String>) -> (r: Option<String>)
    ensures
        r == *v,
{
    match v {
        Option::Some(s) => Option::Some(s.clone()),
        Option::None => Option::None,
    }
}

impl Clone for PostMeta {
    fn clone(&self) -> (r: PostMeta)
        ensures
            r == *self,
    {
        PostMeta {
            title: self.title.clone(),
            external_url: clone_opt_string(&self.external_url),
            date: self.date,
            iso_timestamp: self.iso_timestamp.clone(),
            description: clone_opt_string(&self.description),
            published: self.published,
        }
    }
}

impl Clone for Post {
    fn clone(&self) -> (r: Post)
        ensures
            r == *self,
    {
        Post { slug: self.slug.clone(), content: self.content.clone(), meta: self.meta.clone() }
    }
}

/// The position of the first post with this slug, at or after `from`.
pub open spec fn slug_index_from(s: Seq<SpecPost>, from: int, slug: Seq<char>) -> Option<int>
    decreases s.len() - from,
{
    if from + 1 > s.len() {
        None
    } else if s[from].slug == slug {
        Some(from)
    } else {
        slug_index_from(s, from + 1, slug)
    }
}

proof fn lemma_slug_index_some(s: Seq<SpecPost>, from: int, slug: Seq<char>, i: int)
    requires
        0 <= from <= i < s.len(),
        s[i].slug == slug,
        forall|j: int| from <= j < i ==> s[j].slug != slug,
    ensures
        slug_index_from(s, from, slug) == Some(i),
    decreases i - from,
{
    if from < i {
        lemma_slug_index_some(s, from + 1, slug, i);
    }
}

proof fn lemma_slug_index_none(s: Seq<SpecPost>, from: int, slug: Seq<char>)
    requires
        0 <= from,
        forall|j: int| from <= j < s.len() ==> s[j].slug != slug,
    ensures
        slug_index_from(s, from, slug) is None,
    decreases s.len() - from,
{
    if from + 1 <= s.len() {
        lemma_slug_index_none(s, from + 1, slug);
    }
}

/// The first post with this slug, if any: the cheap known/unknown
/// query the serving layer answers "not found" from.
pub fn find_by_slug<'a>(posts: &'a Vec<Post>, slug: &str) -> (r: Option<&'a Post>)
    ensures
        match r {
            Some(p) => slug_index_from(abs_seq(posts@), 0, slug@) matches Some(k) && 0 <= k
                < posts@.len() && *p == posts@[k],
            None => slug_index_from(abs_seq(posts@), 0, slug@) is None,
        },
{
    let ghost s = abs_seq(posts@);
    let n = posts.len();
    let mut i: usize = 0;
    while i < n
        invariant
            i <= n == posts@.len(),
            s == abs_seq(posts@),
            forall|j: int| 0 <= j < i ==> s[j].slug != slug@,
        decreases n - i,
    {
        if crate::text::str_eq(posts[i].slug.as_str(), slug) {
            proof {
                assert(s[i as int].slug == slug@);
                lemma_slug_index_some(s, 0, slug@, i as int);
            }
            return Some(&posts[i]);
        }
        proof {
            assert(s[i as int] == posts@[i as int].abs());
        }
        i += 1;
    }
    proof {
        lemma_slug_index_none(s, 0, slug@);
    }
    None
}

/// A post belongs in the feed when it is original content, not a
/// link-post pointing elsewhere.
pub open spec fn feed_keep(p: SpecPost) -> bool {
    p.external_url is None
}

pub open spec fn filter_feed(s: Seq<SpecPost>) -> Seq<SpecPost>
    decreases s.len(),
{
    if s.len() == 0 {
        Seq::empty()
    } else {
        filter_feed(s.drop_last()) + if feed_keep(s.last()) {
            seq![s.last()]
        } else {
            Seq::empty()
        }
    }
}

/// The posts that belong in the feed, in order: those without an
/// external link.
pub fn feed_posts(posts: &Vec<Post>) -> (out: Vec<Post>)
    ensures
        abs_seq(out@) == filter_feed(abs_seq(posts@)),
{
    let ghost s = abs_seq(posts@);
    let n = posts.len();
    let mut out: Vec<Post> = Vec::new();
    proof {
        assert(s.take(0) =~= Seq::<SpecPost>::empty());
        assert(abs_seq(out@) =~= filter_feed(s.take(0)));
    }
    let mut i: usize = 0;
    while i < n
        invariant
            i <= n == posts@.len(),
            s == abs_seq(posts@),
            abs_seq(out@) == filter_feed(s.take(i as int)),
        decreases n - i,
    {
        let ghost out0 = abs_seq(out@);
        proof {
            assert(s[i as int] == posts@[i as int].abs());
            assert(s.take(i + 1).drop_last() =~= s.take(i as int));
            assert(s.take(i + 1).last() == s[i as int]);
        }
        let keep = match &posts[i].meta.external_url {
            Option::Some(_) => false,
            Option::None => true,
        };
        if keep {
            out.push(posts[i].clone());
            proof {
                assert(abs_seq(out@) =~= out0 + seq![s[i as int]]);
            }
        } else {
            proof {
                assert(abs_seq(out@) =~= out0 + Seq::<SpecPost>::empty());
            }
        }
        i += 1;
    }
    proof {
        assert(s.take(n as int) =~= s);
    }
    out
}

// ---------------------------------------------------------------------
// Ordering laws.
// ---------------------------------------------------------------------
/// Each post's date is on or before the date of every post ahead of
/// it: newest first.
pub open spec fn sorted_by_date_desc(s: Seq<SpecPost>) -> bool {
    forall|i: int, j: int| 0 <= i < j < s.len() ==> s[j].date.spec_le(s[i].date)
}

proof fn lemma_insert_pos_props(s: Seq<SpecPost>, p: SpecPost)
    ensures
        0 <= insert_pos(s, p) <= s.len(),
        forall|j: int| 0 <= j < insert_pos(s, p) ==> !date_lt(s[j].date, p.date),
        insert_pos(s, p) < s.len() ==> date_lt(s[insert_pos(s, p)].date, p.date),
    decreases s.len(),
{
    if s.len() > 0 && !date_lt(s[0].date, p.date) {
        lemma_insert_pos_props(s.drop_first(), p);
        let k = insert_pos(s, p);
        assert forall|j: int| 0 <= j < k implies !date_lt(s[j].date, p.date) by {
            if j > 0 {
                assert(s.drop_first()[j - 1] == s[j]);
            }
        }
        if k < s.len() {
            assert(s.drop_first()[k - 1] == s[k]);
        }
    }
}

proof fn lemma_insert_sorted_keeps(s: Seq<SpecPost>, p: SpecPost)
    requires
        sorted_by_date_desc(s),
    ensures
        sorted_by_date_desc(insert_sorted_spec(s, p)),
{
    lemma_insert_pos_props(s, p);
    let k = insert_pos(s, p);
    let t = s.insert(k, p);
    assert forall|i: int, j: int| 0 <= i < j < t.len() implies t[j].date.spec_le(t[i].date) by {
        if i < k {
            assert(t[i] == s[i]);
        }
        if j < k {
            assert(t[j] == s[j]);
        }
        if i > k {
            assert(t[i] == s[i - 1]);
        }
        if j > k {
            assert(t[j] == s[j - 1]);
        }
        if i == k {
            assert(t[i] == p);
        }
        if j == k {
            assert(t[j] == p);
        }
        if i == k && j > k {
            assert(date_lt(s[k].date, p.date));
            assert(s[k].date.spec_le(p.date));
            if j - 1 > k {
                assert(s[j - 1].date.spec_le(s[k].date));
            }
        }
    }
}

/// The sorted collection is ordered by date, newest first.
pub proof fn lemma_sort_sorted(s: Seq<SpecPost>)
    ensures
        sorted_by_date_desc(sort_spec(s)),
    decreases s.len(),
{
    if s.len() > 0 {
        lemma_sort_sorted(s.drop_last());
        lemma_insert_sorted_keeps(sort_spec(s.drop_last()), s.last());
    }
}

/// The posts of one date, in the order the sequence holds them.
pub open spec fn same_date_subseq(s: Seq<SpecPost>, d: Date) -> Seq<SpecPost>
    decreases s.len(),
{
    if s.len() == 0 {
        Seq::empty()
    } else {
        same_date_subseq(s.drop_last(), d) + if s.last().date == d {
            seq![s.last()]
        } else {
            Seq::empty()
        }
    }
}

proof fn lemma_insert_same_date(s: Seq<SpecPost>, p: SpecPost, d: Date)
    requires
        sorted_by_date_desc(s),
    ensures
        same_date_subseq(insert_sorted_spec(s, p), d) == same_date_subseq(s, d) + if p.date == d {
            seq![p]
        } else {
            Seq::<SpecPost>::empty()
        },
    decreases s.len(),
{
    lemma_insert_pos_props(s, p);
    let k = insert_pos(s, p);
    let t = s.insert(k, p);
    if k == s.len() {
        assert(t.drop_last() =~= s);
        assert(t.last() == p);
    } else {
        assert(t.last() == s.last());
        assert(t.drop_last() =~= s.drop_last().insert(k, p));
        assert(sorted_by_date_desc(s.drop_last())) by {
            assert forall|i: int, j: int|
                0 <= i < j < s.drop_last().len() implies s.drop_last()[j].date.spec_le(
                s.drop_last()[i].date,
            ) by {
                assert(s.drop_last()[i] == s[i]);
                assert(s.drop_last()[j] == s[j]);
            }
        }
        assert forall|j: int| 0 <= j < k implies !date_lt(s.drop_last()[j].date, p.date) by {
            assert(s.drop_last()[j] == s[j]);
        }
        if k < s.len() - 1 {
            assert(s.drop_last()[k] == s[k]);
        }
        lemma_insert_pos_at(s.drop_last(), p, k);
        lemma_insert_same_date(s.drop_last(), p, d);
        if p.date == d && s.last().date == d {
            assert(s.last().date.spec_le(s[k].date));
            assert(p.date.spec_le(s.last().date));
            assert(false);
        }
        assert(same_date_subseq(t, d) =~= same_date_subseq(s, d) + (if p.date == d {
            seq![p]
        } else {
            Seq::<SpecPost>::empty()
        }));
    }
}

/// Sorting never reorders the posts of one date: the tie-break is the
/// input order, and the sort is stable.
pub proof fn lemma_sort_stable(s: Seq<SpecPost>, d: Date)
    ensures
        same_date_subseq(sort_spec(s), d) == same_date_subseq(s, d),
    decreases s.len(),
{
    if s.len() > 0 {
        lemma_sort_stable(s.drop_last(), d);
        lemma_sort_sorted(s.drop_last());
        lemma_insert_same_date(sort_spec(s.drop_last()), s.last(), d);
    }
}

// ---------------------------------------------------------------------
// Publish-state laws.
// ---------------------------------------------------------------------
/// Every post of the filtered collection is published — one whose
/// frontmatter said `published: false` never appears — and every
/// published post of the input is kept, in order: absence of the
/// field is equivalent to `published: true`.
pub proof fn lemma_filter_published_members(s: Seq<SpecPost>)
    ensures
        forall|j: int| 0 <= j < filter_published(s).len() ==> published_keep(filter_published(s)[j]),
        forall|i: int|
            0 <= i < s.len() && published_keep(s[i]) ==> filter_published(s).contains(s[i]),
        forall|j: int| 0 <= j < filter_published(s).len() ==> s.contains(filter_published(s)[j]),
    decreases s.len(),
{
    if s.len() > 0 {
        lemma_filter_published_members(s.drop_last());
        let f = filter_published(s);
        let fp = filter_published(s.drop_last());
        assert forall|i: int| 0 <= i < s.len() && published_keep(s[i]) implies f.contains(
            s[i],
        ) by {
            if i < s.len() - 1 {
                assert(s.drop_last()[i] == s[i]);
                assert(fp.contains(s[i]));
                let w = choose|w: int| 0 <= w < fp.len() && fp[w] == s[i];
                assert(f[w] == s[i]);
            } else {
                assert(f[f.len() - 1] == s[i]);
            }
        }
        assert forall|j: int| 0 <= j < f.len() implies s.contains(f[j]) by {
            if j < fp.len() {
                assert(f[j] == fp[j]);
                assert(s.drop_last().contains(fp[j]));
                let w = choose|w: int| 0 <= w < s.drop_last().len() && s.drop_last()[w] == fp[j];
                assert(s[w] == f[j]);
            } else {
                assert(f[j] == s.last());
                assert(s[s.len() - 1] == f[j]);
            }
        }
    }
}

proof fn lemma_filter_published_sorted(s: Seq<SpecPost>)
    requires
        sorted_by_date_desc(s),
    ensures
        sorted_by_date_desc(filter_published(s)),
    decreases s.len(),
{
    if s.len() > 0 {
        assert(sorted_by_date_desc(s.drop_last())) by {
            assert forall|i: int, j: int|
                0 <= i < j < s.drop_last().len() implies s.drop_last()[j].date.spec_le(
                s.drop_last()[i].date,
            ) by {
                assert(s.drop_last()[i] == s[i]);
                assert(s.drop_last()[j] == s[j]);
            }
        }
        lemma_filter_published_sorted(s.drop_last());
        if published_keep(s.last()) {
            let f = filter_published(s);
            let fp = filter_published(s.drop_last());
            lemma_filter_published_members(s.drop_last());
            assert forall|i: int, j: int| 0 <= i < j < f.len() implies f[j].date.spec_le(
                f[i].date,
            ) by {
                if j < f.len() - 1 {
                    assert(f[i] == fp[i] && f[j] == fp[j]);
                } else {
                    assert(f[j] == s.last());
                    assert(f[i] == fp[i]);
                    assert(s.drop_last().contains(fp[i]));
                    let w = choose|w: int|
                        0 <= w < s.drop_last().len() && s.drop_last()[w] == fp[i];
                    assert(s[w] == fp[i]);
                    assert(s.last() == s[s.len() - 1]);
                    assert(s.last().date.spec_le(s[w].date));
                }
            }
        }
    }
}

/// The loaded collection is sorted by date descending.
pub proof fn lemma_load_posts_sorted(files: Seq<(Seq<char>, Seq<char>)>)
    requires
        load_posts_spec(files) is Ok,
    ensures
        sorted_by_date_desc(load_posts_spec(files).unwrap()),
{
    let ps = parse_all(files).unwrap();
    lemma_sort_sorted(ps);
    lemma_filter_published_sorted(sort_spec(ps));
}

proof fn lemma_filter_same_date_commute(s: Seq<SpecPost>, d: Date)
    ensures
        same_date_subseq(filter_published(s), d) == filter_published(same_date_subseq(s, d)),
    decreases s.len(),
{
    if s.len() > 0 {
        lemma_filter_same_date_commute(s.drop_last(), d);
        let f = filter_published(s);
        let fp = filter_published(s.drop_last());
        let sd = same_date_subseq(s, d);
        let sdp = same_date_subseq(s.drop_last(), d);
        if published_keep(s.last()) {
            assert(f =~= fp.push(s.last()));
            assert(f.drop_last() =~= fp);
        } else {
            assert(f =~= fp);
        }
        if s.last().date == d {
            assert(sd =~= sdp.push(s.last()));
            assert(sd.drop_last() =~= sdp);
        } else {
            assert(sd =~= sdp);
        }
        assert(same_date_subseq(f, d) =~= filter_published(sd));
    }
}

/// Among the published posts of any one date, the loaded collection
/// keeps exactly the original encounter order: the sort's tie-break
/// is the input order.
pub proof fn lemma_load_posts_stable(files: Seq<(Seq<char>, Seq<char>)>, d: Date)
    requires
        load_posts_spec(files) is Ok,
    ensures
        same_date_subseq(load_posts_spec(files).unwrap(), d) == filter_published(
            same_date_subseq(parse_all(files).unwrap(), d),
        ),
{
    let ps = parse_all(files).unwrap();
    lemma_sort_stable(ps, d);
    lemma_filter_same_date_commute(sort_spec(ps), d);
}

// ---------------------------------------------------------------------
// Failure laws.
// ---------------------------------------------------------------------
proof fn lemma_parse_all_prefix_ok(files: Seq<(Seq<char>, Seq<char>)>, i: int)
    requires
        0 <= i <= files.len(),
        forall|j: int| 0 <= j < i ==> parse_post_spec(files[j].0, files[j].1) is Ok,
    ensures
        parse_all(files.take(i)) is Ok,
    decreases i,
{
    if i > 0 {
        lemma_parse_all_prefix_ok(files, i - 1);
        assert(files.take(i).drop_last() =~= files.take(i - 1));
        assert(files.take(i).last() == files[i - 1]);
    }
}

/// One bad file fails the whole load with that file's error — the
/// first failing file decides — and no partial collection is
/// returned. In particular a frontmatter block that the schema
/// rejects, a missing required `title` included, fails the load with
/// the schema error.
pub proof fn lemma_first_error_fatal(files: Seq<(Seq<char>, Seq<char>)>, i: int, e: PostError)
    requires
        0 <= i < files.len(),
        forall|j: int| 0 <= j < i ==> parse_post_spec(files[j].0, files[j].1) is Ok,
        parse_post_spec(files[i].0, files[i].1) == Err::<SpecPost, PostError>(e),
    ensures
        load_posts_spec(files) == Err::<Seq<SpecPost>, PostError>(e),
{
    lemma_parse_all_prefix_ok(files, i);
    assert(files.take(i + 1).drop_last() =~= files.take(i));
    assert(files.take(i + 1).last() == files[i]);
    assert(parse_all(files.take(i + 1)) == Err::<Seq<SpecPost>, PostError>(e));
    lemma_parse_all_err(files, i + 1);
}

/// A file whose frontmatter block has no closing delimiter — fewer
/// than two delimiters in all — parses to a structured
/// `MalformedFrontmatter` error, never a crash.
pub proof fn lemma_unclosed_frontmatter(f: Seq<char>, c: Seq<char>)
    requires
        slug_of(f) is Some,
        first_delim_from(c, 0) is None || (first_delim_from(c, 0) matches Some(i)
            && first_delim_from(c, i + 3) is None),
    ensures
        parse_post_spec(f, c) == Err::<SpecPost, PostError>(PostError::MalformedFrontmatter),
{
}

/// The slug a pageview notification names: the request path with the
/// post prefix `/p/` stripped; `None` for any other path.
pub open spec fn path_slug(path: Seq<char>) -> Option<Seq<char>> {
    if path.len() >= 3 && path[0] == '/' && path[1] == 'p' && path[2] == '/' {
        Some(path.skip(3))
    } else {
        None
    }
}

pub fn slug_from_path(path: &str) -> (r: Option<String>)
    ensures
        match r {
            Some(s) => path_slug(path@) == Some(s@),
            None => path_slug(path@) is None,
        },
{
    let v = str_to_chars(path);
    let n = v.len();
    if n >= 3 && v[0] == '/' && v[1] == 'p' && v[2] == '/' {
        let rest = subrange_chars(&v, 3, n);
        proof {
            assert(v@.subrange(3, n as int) =~= path@.skip(3));
        }
        Some(string_of_chars(&rest))
    } else {
        None
    }
}

/// Where an old-style dated route redirects: the post page for the
/// slug, the `.html` tail dropped if it is there.
pub open spec fn old_route_redirect(slug: Seq<char>) -> Seq<char> {
    let bare = if slug.len() >= 5 && slug[slug.len() - 5] == '.' && slug[slug.len() - 4] == 'h'
        && slug[slug.len() - 3] == 't' && slug[slug.len() - 2] == 'm' && slug[slug.len() - 1]
        == 'l' {
        slug.take(slug.len() - 5)
    } else {
        slug
    };
    seq!['/', 'p', '/'] + bare
}

pub fn old_route_target(slug: &str) -> (r: String)
    ensures
        r@ == old_route_redirect(slug@),
{
    let v = str_to_chars(slug);
    let n = v.len();
    let mut out: Vec<char> = Vec::new();
    out.push('/');
    out.push('p');
    out.push('/');
    let has_tail = n >= 5 && v[n - 5] == '.' && v[n - 4] == 'h' && v[n - 3] == 't' && v[n - 2]
        == 'm' && v[n - 1] == 'l';
    let hi = if has_tail {
        n - 5
    } else {
        n
    };
    crate::text::append_range(&mut out, &v, 0, hi);
    proof {
        assert(out@ =~= old_route_redirect(slug@));
    }
    string_of_chars(&out)
}

} // verus!
