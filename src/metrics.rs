use vstd::prelude::*;

use crate::numbers::chars_of;
use crate::search::{first_index, lemma_first_index_prefix, lemma_first_index_step};

verus! {

/// Labels of the request counter.
pub struct ProxyRequestLabels {
    pub host: String,
}

/// Labels of the request counter by user-agent category.
pub struct ProxyRequestByAgentLabels {
    pub host: String,
    pub user_agent: String,
}

/// Labels of the last-known-height gauge.
pub struct HostStateLabels {
    pub host: String,
}

/// Labels of the current-active-endpoint gauge.
pub struct HostCurrentStateLabels {
    pub host: String,
    pub remote_host: String,
}

/// Labels of the response latency histogram.
pub struct ResponseLabels {
    pub host: String,
    pub remote_host: String,
    pub path: String,
    pub status: u16,
}

/// The number of bytes that `c` takes in UTF-8.
pub open spec fn utf8_width(c: char) -> nat {
    if (c as u32) < 0x80 {
        1
    } else if (c as u32) < 0x800 {
        2
    } else if (c as u32) < 0x10000 {
        3
    } else {
        4
    }
}

/// The number of bytes that `s` takes in UTF-8.
pub open spec fn utf8_len(s: Seq<char>) -> nat
    decreases s.len(),
{
    if s.len() == 0 {
        0
    } else {
        utf8_len(s.drop_last()) + utf8_width(s.last())
    }
}

/// The pieces of `s` between slashes; an empty string is one empty piece.
pub open spec fn segments(s: Seq<char>) -> Seq<Seq<char>>
    decreases s.len(),
{
    if s.len() == 0 {
        seq![Seq::<char>::empty()]
    } else {
        let segs = segments(s.drop_last());
        if s.last() == '/' {
            segs.push(Seq::<char>::empty())
        } else {
            segs.update(segs.len() - 1, segs.last().push(s.last()))
        }
    }
}

/// Each piece followed by a slash, one after the other.
pub open spec fn slash_terminated(pieces: Seq<Seq<char>>) -> Seq<char>
    decreases pieces.len(),
{
    if pieces.len() == 0 {
        Seq::<char>::empty()
    } else {
        slash_terminated(pieces.drop_last()) + pieces.last() + "/"@
    }
}

/// The pieces joined by slashes.
pub open spec fn join_with_slash(pieces: Seq<Seq<char>>) -> Seq<char> {
    if pieces.len() == 0 {
        Seq::<char>::empty()
    } else {
        slash_terminated(pieces.drop_last()) + pieces.last()
    }
}

/// A path segment as it appears in a label: one longer than 20 bytes, such as
/// an address or a hash, stands as `:value`.
pub open spec fn label_segment(seg: Seq<char>) -> Seq<char> {
    if utf8_len(seg) > 20 {
        ":value"@
    } else {
        seg
    }
}

/// A request path as it appears in a label, with long segments replaced.
pub open spec fn truncated_path(path: Seq<char>) -> Seq<char> {
    join_with_slash(segments(path).map_values(|seg: Seq<char>| label_segment(seg)))
}

/// Relies on `String::push`, which appends one character.
#[verifier::external_body]
fn push_char(s: &mut String, c: char)
    ensures
        final(s)@ == old(s)@.push(c),
{
    s.push(c)
}

fn char_width(c: char) -> (r: usize)
    ensures
        r as nat == utf8_width(c),
{
    let u = c as u32;
    if u < 0x80 {
        1
    } else if u < 0x800 {
        2
    } else if u < 0x10000 {
        3
    } else {
        4
    }
}

/// Replaces every path segment longer than 20 bytes with `:value`, so that
/// labels do not grow with every address or hash that clients ask for.
pub fn truncate_path(path: &str) -> (r: String)
    ensures
        r@ == truncated_path(path@),
{
    let cs = chars_of(path);
    let ghost label = |seg: Seq<char>| label_segment(seg);
    let mut out = String::new();
    let mut cur = String::new();
    let mut cur_bytes: usize = 0;
    let mut i: usize = 0;
    while i < cs.len()
        invariant
            i <= cs.len(),
            cs@ == path@,
            label == (|seg: Seq<char>| label_segment(seg)),
            segments(cs@.subrange(0, i as int)).len() > 0,
            cur@ == segments(cs@.subrange(0, i as int)).last(),
            cur_bytes as nat == if utf8_len(cur@) > 20 {
                21
            } else {
                utf8_len(cur@)
            },
            cur@.len() <= i,
            out@ == slash_terminated(segments(cs@.subrange(0, i as int)).drop_last().map_values(label)),
        decreases cs.len() - i,
    {
        let ghost pre = cs@.subrange(0, i as int);
        let ghost segs = segments(pre);
        assert(cs@.subrange(0, i + 1).drop_last() =~= pre);
        let c = cs[i];
        if c == '/' {
            if cur_bytes > 20 {
                out.append(":value");
            } else {
                out.append(cur.as_str());
            }
            out.append("/");
            let ghost next = segs.push(Seq::<char>::empty());
            assert(next.drop_last() =~= segs);
            assert(segs.map_values(label).drop_last() =~= segs.drop_last().map_values(label));
            cur = String::new();
            cur_bytes = 0;
        } else {
            let ghost next = segs.update(segs.len() - 1, segs.last().push(c));
            assert(next.drop_last() =~= segs.drop_last());
            assert(cur@.push(c).drop_last() =~= cur@);
            push_char(&mut cur, c);
            if cur_bytes <= 20 {
                cur_bytes = cur_bytes + char_width(c);
                if cur_bytes > 20 {
                    cur_bytes = 21;
                }
            }
        }
        i = i + 1;
    }
    let ghost segs = segments(cs@.subrange(0, i as int));
    assert(cs@.subrange(0, i as int) =~= path@);
    assert(segs.map_values(label).drop_last() =~= segs.drop_last().map_values(label));
    if cur_bytes > 20 {
        out.append(":value");
    } else {
        out.append(cur.as_str());
    }
    out
}


/// A user-agent category: its name and the regular expressions that put a
/// user agent in it.
pub struct UserAgentCategory {
    pub name: String,
    pub patterns: Vec<String>,
}

pub type CategoryView = (Seq<char>, Seq<Seq<char>>);

impl View for UserAgentCategory {
    type V = CategoryView;

    open spec fn view(&self) -> CategoryView {
        (self.name@, self.patterns@.map_values(|p: String| p@))
    }
}

pub open spec fn categories_view(cs: Seq<UserAgentCategory>) -> Seq<CategoryView> {
    cs.map_values(|c: UserAgentCategory| c@)
}

/// Whether regular expression `pattern` matches somewhere in `text`; `None`
/// when `pattern` does not compile (it is malformed or exceeds the size limits).
pub uninterp spec fn regex_verdict(pattern: Seq<char>, text: Seq<char>) -> Option<bool>;

/// Relies on `regex::Regex::new`, which compiles a pattern or returns an error,
/// and `Regex::is_match`, which tells whether the compiled pattern matches
/// somewhere in the text. Both depend on their arguments alone.
#[verifier::external_body]
fn regex_is_match(pattern: &str, text: &str) -> (r: Option<bool>)
    ensures
        r == regex_verdict(pattern@, text@),
{
    regex::Regex::new(pattern).ok().map(|re| re.is_match(text))
}

/// Some pattern of a category matched: the verdicts of its patterns, in order.
pub open spec fn some_match() -> spec_fn(Seq<Option<bool>>) -> bool {
    |vs: Seq<Option<bool>>| exists|j: int| 0 <= j < vs.len() && #[trigger] vs[j] == Some(true)
}

/// The name of the first category with a matching pattern, or `unknown`, given
/// the verdict of every pattern of every category.
pub open spec fn category_by_verdicts(names: Seq<Seq<char>>, verdicts: Seq<Seq<Option<bool>>>) -> Seq<
    char,
> {
    match first_index(verdicts, some_match()) {
        Some(i) => names[i],
        None => "unknown"@,
    }
}

/// The verdict of each pattern of each category on the user agent.
pub open spec fn verdicts_of(categories: Seq<CategoryView>, user_agent: Seq<char>) -> Seq<
    Seq<Option<bool>>,
> {
    categories.map_values(
        |c: CategoryView| c.1.map_values(|p: Seq<char>| regex_verdict(p, user_agent)),
    )
}

/// The name of the first category with a valid pattern that matches, or `unknown`.
pub open spec fn category_of(categories: Seq<CategoryView>, user_agent: Seq<char>) -> Seq<char> {
    category_by_verdicts(categories.map_values(|c: CategoryView| c.0), verdicts_of(categories, user_agent))
}

fn verdicts_row(c: &UserAgentCategory, user_agent: &str) -> (r: Vec<Option<bool>>)
    ensures
        r@ == c@.1.map_values(|p: Seq<char>| regex_verdict(p, user_agent@)),
{
    let mut r: Vec<Option<bool>> = Vec::new();
    let mut j: usize = 0;
    while j < c.patterns.len()
        invariant
            j <= c.patterns.len(),
            r.len() == j,
            forall|k: int| 0 <= k < j ==> #[trigger] r@[k] == regex_verdict(c.patterns@[k]@, user_agent@),
        decreases c.patterns.len() - j,
    {
        r.push(regex_is_match(c.patterns[j].as_str(), user_agent));
        j = j + 1;
    }
    assert(r@ =~= c@.1.map_values(|p: Seq<char>| regex_verdict(p, user_agent@)));
    r
}

fn row_has_match(row: &Vec<Option<bool>>) -> (r: bool)
    ensures
        r == some_match()(row@),
{
    let mut j: usize = 0;
    while j < row.len()
        invariant
            j <= row.len(),
            forall|k: int| 0 <= k < j ==> #[trigger] row@[k] != Some(true),
        decreases row.len() - j,
    {
        if row[j] == Some(true) {
            return true;
        }
        j = j + 1;
    }
    false
}

/// The name of the first category whose patterns have a `Some(true)` verdict,
/// or `unknown`; `verdicts[i]` holds the verdicts of the patterns of category `i`.
pub fn first_matching_category(names: &Vec<String>, verdicts: &Vec<Vec<Option<bool>>>) -> (r: String)
    requires
        names.len() == verdicts.len(),
    ensures
        r@ == category_by_verdicts(
            names@.map_values(|s: String| s@),
            verdicts@.map_values(|v: Vec<Option<bool>>| v@),
        ),
{
    let ghost vv = verdicts@.map_values(|v: Vec<Option<bool>>| v@);
    let mut i: usize = 0;
    while i < verdicts.len()
        invariant
            i <= verdicts.len(),
            names.len() == verdicts.len(),
            vv == verdicts@.map_values(|v: Vec<Option<bool>>| v@),
            first_index(vv.subrange(0, i as int), some_match()) is None,
        decreases verdicts.len() - i,
    {
        proof {
            lemma_first_index_step(vv, some_match(), i as int);
        }
        if row_has_match(&verdicts[i]) {
            proof {
                lemma_first_index_prefix(vv, some_match(), i + 1);
            }
            return names[i].clone();
        }
        i = i + 1;
    }
    assert(vv.subrange(0, i as int) =~= vv);
    String::from_str("unknown")
}

/// The category of a user agent: the first category in order that has a
/// valid pattern matching it, or `unknown`. Invalid patterns are skipped.
pub fn categorize_user_agent(categories: &Vec<UserAgentCategory>, user_agent: &str) -> (r: String)
    ensures
        r@ == category_of(categories_view(categories@), user_agent@),
{
    let ghost cv = categories_view(categories@);
    let mut names: Vec<String> = Vec::new();
    let mut verdicts: Vec<Vec<Option<bool>>> = Vec::new();
    let mut i: usize = 0;
    while i < categories.len()
        invariant
            i <= categories.len(),
            cv == categories_view(categories@),
            names.len() == i,
            verdicts.len() == i,
            forall|k: int| 0 <= k < i ==> (#[trigger] names@[k])@ == cv[k].0,
            forall|k: int|
                0 <= k < i ==> (#[trigger] verdicts@[k])@ == cv[k].1.map_values(
                    |p: Seq<char>| regex_verdict(p, user_agent@),
                ),
        decreases categories.len() - i,
    {
        names.push(categories[i].name.clone());
        verdicts.push(verdicts_row(&categories[i], user_agent));
        i = i + 1;
    }
    assert(names@.map_values(|s: String| s@) =~= cv.map_values(|c: CategoryView| c.0));
    assert(verdicts@.map_values(|v: Vec<Option<bool>>| v@) =~= verdicts_of(cv, user_agent@));
    first_matching_category(&names, &verdicts)
}

impl ProxyRequestLabels {
    pub fn new(host: &str) -> (r: Self)
        ensures
            r.host@ == host@,
    {
        ProxyRequestLabels { host: String::from_str(host) }
    }
}

impl ProxyRequestByAgentLabels {
    /// Labels a request by host and by the category of its user agent.
    pub fn new(host: &str, user_agent: &str, categories: &Vec<UserAgentCategory>) -> (r: Self)
        ensures
            r.host@ == host@,
            r.user_agent@ == category_of(categories_view(categories@), user_agent@),
    {
        ProxyRequestByAgentLabels {
            host: String::from_str(host),
            user_agent: categorize_user_agent(categories, user_agent),
        }
    }
}

impl HostStateLabels {
    pub fn new(host: &str) -> (r: Self)
        ensures
            r.host@ == host@,
    {
        HostStateLabels { host: String::from_str(host) }
    }
}

impl HostCurrentStateLabels {
    pub fn new(host: &str, remote_host: &str) -> (r: Self)
        ensures
            r.host@ == host@,
            r.remote_host@ == remote_host@,
    {
        HostCurrentStateLabels { host: String::from_str(host), remote_host: String::from_str(remote_host) }
    }
}

impl ResponseLabels {
    /// Labels a response; the path is truncated to keep the label set small.
    pub fn new(host: &str, path: &str, remote_host: &str, status: u16) -> (r: Self)
        ensures
            r.host@ == host@,
            r.path@ == truncated_path(path@),
            r.remote_host@ == remote_host@,
            r.status == status,
    {
        ResponseLabels {
            host: String::from_str(host),
            remote_host: String::from_str(remote_host),
            path: truncate_path(path),
            status,
        }
    }
}

} // verus!
