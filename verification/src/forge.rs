//! Open pull requests of the forge repository that a checkout pushes to.

pub mod auth;
pub mod pulls;

use crate::text;
use crate::text::{
    chars_of, copy_chars, find_char, find_text, same_chars, same_text, string_of, to_ascii_lower,
    trim,
};
use vstd::prelude::*;
use vstd::slice::*;
use vstd::string::*;

verus! {

/// A repository on a forge, as a remote URL of git names it.
#[derive(Debug, PartialEq, Eq, Hash, PartialOrd, Ord)]
pub struct RepoSlug {
    pub host: String,
    pub owner: String,
    pub name: String,
}

/// A repository by its texts.
#[verifier::ext_equal]
pub ghost struct SlugView {
    pub host: Seq<char>,
    pub owner: Seq<char>,
    pub name: Seq<char>,
}

impl View for RepoSlug {
    type V = SlugView;

    open spec fn view(&self) -> SlugView {
        SlugView { host: self.host@, owner: self.owner@, name: self.name@ }
    }
}

/// A text up to the first `c`.
pub open spec fn up_to(s: Seq<char>, c: char) -> Seq<char> {
    s.take(text::index_of_char(s, c))
}

/// What follows the first `c`; the whole text where there is none.
pub open spec fn after(s: Seq<char>, c: char) -> Seq<char> {
    let at = text::index_of_char(s, c);
    if 0 <= at < s.len() {
        s.skip(at + 1)
    } else {
        s
    }
}

/// A URL's scheme: a letter, then letters, digits and `+`, `-`, `.`.
pub open spec fn is_scheme(s: Seq<char>) -> bool {
    &&& s.len() > 0
    &&& 'a' <= s[0] <= 'z' || 'A' <= s[0] <= 'Z'
    &&& forall|i: int| 0 <= i < s.len() ==> is_scheme_char(#[trigger] s[i])
}

pub open spec fn is_scheme_char(c: char) -> bool {
    'a' <= c <= 'z' || 'A' <= c <= 'Z' || '0' <= c <= '9' || c == '+' || c == '-' || c == '.'
}

/// The host of a remote URL, with its port, and the path on it.
pub ghost struct Place {
    pub host: Seq<char>,
    pub path: Seq<char>,
}

/// A text with its first slash and all behind it apart.
pub open spec fn at_slash(s: Seq<char>) -> Place {
    let slash = text::index_of_char(s, '/');
    Place { host: s.take(slash), path: s.skip(slash) }
}

/// No slash stands before the first `@`: what stands there is a user, or there is none.
pub open spec fn has_user_in_front(s: Seq<char>) -> bool {
    s.contains('@') ==> !up_to(s, '@').contains('/')
}

/// Host and path of a remote URL, in one of three forms: with a scheme, and then perhaps a user
/// before the host; as `user@host:path`; or as the host and the path alone. The scheme of files
/// names a directory, and so does a path that starts with a dot.
pub open spec fn place_of(url: Seq<char>) -> Option<Place> {
    match text::index_of_text(url, "://"@) {
        Some(scheme_end) => {
            let rest = url.skip(scheme_end + 3);
            let place = at_slash(rest);
            if is_scheme(url.take(scheme_end)) && url.take(scheme_end) != "file"@
                && has_user_in_front(rest) {
                Some(Place { host: after(place.host, '@'), path: place.path })
            } else {
                None
            }
        },
        None => if url.contains('@') {
            let rest = after(url, '@');
            let host = up_to(rest, ':');
            if !has_user_in_front(url) || host.contains('/') || !rest.contains(':') {
                None
            } else {
                Some(Place { host, path: after(rest, ':') })
            }
        } else if url.len() > 0 && url[0] == '.' {
            None
        } else {
            Some(at_slash(url))
        },
    }
}

/// A host that a forge can have, and its port where it names one. A name without a dot is an
/// alias that only ssh knows.
pub open spec fn is_host(s: Seq<char>) -> bool {
    up_to(s, ':').contains('.')
}

/// What stands between the slashes of a text, where something does.
pub open spec fn segments(s: Seq<char>) -> Seq<Seq<char>>
    decreases s.len(),
{
    if s.len() == 0 {
        seq![]
    } else {
        let end = text::index_of_char(s, '/');
        let head = if end == 0 {
            seq![]
        } else {
            seq![s.take(end)]
        };
        if 0 <= end < s.len() {
            head + segments(s.skip(end + 1))
        } else {
            head
        }
    }
}

/// A name without the `.git` at its end, however often it stands there.
pub open spec fn without_git(s: Seq<char>) -> Seq<char>
    decreases s.len(),
{
    if s.len() >= 4 && s.skip(s.len() - 4) == ".git"@ {
        without_git(s.take(s.len() - 4))
    } else {
        s
    }
}

/// A text in ASCII lower case.
pub open spec fn lowered(s: Seq<char>) -> Seq<char> {
    s.map_values(|c: char| text::ascii_lower(c))
}

/// The repository that a remote URL names: owner and name are the last two parts of its path. A
/// URL in another form names none.
pub open spec fn slug_of(url: Seq<char>) -> Option<SlugView> {
    match place_of(text::trimmed(url)) {
        Some(place) => {
            let parts = segments(place.path);
            let name = without_git(parts.last());
            if is_host(place.host) && parts.len() >= 2 && name.len() > 0 {
                Some(
                    SlugView {
                        host: lowered(up_to(place.host, ':')),
                        owner: parts[parts.len() - 2],
                        name,
                    },
                )
            } else {
                None
            }
        },
        None => None,
    }
}

fn drop_through<'a>(s: &'a [char], c: char) -> (rest: &'a [char])
    ensures
        rest@ == after(s@, c),
{
    let at: usize = find_char(s, c);
    if at < s.len() {
        let rest = slice_subrange(s, at + 1, s.len());
        assert(rest@ =~= s@.skip(at + 1));
        rest
    } else {
        s
    }
}

fn scheme_is_right(s: &[char]) -> (right: bool)
    ensures
        right == is_scheme(s@),
{
    if s.len() == 0 || !(('a' <= s[0] && s[0] <= 'z') || ('A' <= s[0] && s[0] <= 'Z')) {
        return false;
    }
    let mut i: usize = 0;
    while i < s.len()
        invariant
            i <= s@.len(),
            forall|j: int| 0 <= j < i ==> is_scheme_char(#[trigger] s@[j]),
        decreases s@.len() - i,
    {
        let c = s[i];
        if !(('a' <= c && c <= 'z') || ('A' <= c && c <= 'Z') || ('0' <= c && c <= '9') || c == '+'
            || c == '-' || c == '.') {
            assert(!is_scheme_char(s@[i as int]));
            return false;
        }
        i += 1;
    }
    true
}

fn holds(s: &[char], c: char) -> (found: bool)
    ensures
        found == s@.contains(c),
{
    let at: usize = find_char(s, c);
    assert(at < s@.len() ==> s@.contains(s@[at as int]));
    at < s.len()
}

fn split_at_slash(s: &[char]) -> (place: (&[char], &[char]))
    ensures
        at_slash(s@) == (Place { host: place.0@, path: place.1@ }),
{
    let slash: usize = find_char(s, '/');
    let host = slice_subrange(s, 0, slash);
    let path = slice_subrange(s, slash, s.len());
    assert(host@ =~= s@.take(slash as int));
    assert(path@ =~= s@.skip(slash as int));
    (host, path)
}

fn user_is_in_front(s: &[char]) -> (in_front: bool)
    ensures
        in_front == has_user_in_front(s@),
{
    !holds(s, '@') || !holds(strip_from(s, '@'), '/')
}

fn host_and_path(url: &[char]) -> (place: Option<(&[char], &[char])>)
    ensures
        match place {
            Some(place) => place_of(url@) == Some(Place { host: place.0@, path: place.1@ }),
            None => place_of(url@) is None,
        },
{
    proof {
        reveal_strlit("://");
    }
    let len: usize = url.len();
    match find_text(url, "://") {
        Some(scheme_end) => {
            let scheme = slice_subrange(url, 0, scheme_end);
            assert(scheme@ =~= url@.take(scheme_end as int));
            let rest = slice_subrange(url, scheme_end + 3, len);
            assert(rest@ =~= url@.skip(scheme_end + 3));
            if !scheme_is_right(scheme) || same_chars(scheme, chars_of("file").as_slice())
                || !user_is_in_front(rest) {
                return None;
            }
            let (host, path) = split_at_slash(rest);
            Some((drop_through(host, '@'), path))
        },
        None => {
            if !holds(url, '@') {
                if url.len() > 0 && url[0] == '.' {
                    return None;
                }
                return Some(split_at_slash(url));
            }
            let rest = drop_through(url, '@');
            let host = strip_port(rest);
            if !user_is_in_front(url) || holds(host, '/') || !holds(rest, ':') {
                return None;
            }
            Some((host, drop_through(rest, ':')))
        },
    }
}

fn split_segments(s: &[char]) -> (parts: Vec<Vec<char>>)
    ensures
        text::char_lists(parts@) == segments(s@),
{
    let mut parts: Vec<Vec<char>> = Vec::new();
    let mut at: usize = 0;
    assert(s@.skip(0) =~= s@);
    assert(text::char_lists(parts@) + segments(s@) =~= segments(s@));
    while at < s.len()
        invariant
            at <= s@.len(),
            segments(s@) == text::char_lists(parts@) + segments(s@.skip(at as int)),
        decreases s@.len() - at,
    {
        let rest = slice_subrange(s, at, s.len());
        assert(rest@ =~= s@.skip(at as int));
        let ghost before = text::char_lists(parts@);
        let end: usize = find_char(rest, '/');
        let ghost head: Seq<Seq<char>> = if end == 0 {
            seq![]
        } else {
            seq![rest@.take(end as int)]
        };
        if end > 0 {
            let part = slice_subrange(rest, 0, end);
            assert(part@ =~= rest@.take(end as int));
            parts.push(copy_chars(part));
        }
        assert(text::char_lists(parts@) =~= before + head);
        if end < rest.len() {
            at = at + end + 1;
            assert(s@.skip(at as int) =~= rest@.skip(end + 1));
        } else {
            at = s.len();
            assert(s@.skip(at as int) =~= seq![]);
        }
        assert(before + (head + segments(s@.skip(at as int))) =~= (before + head) + segments(
            s@.skip(at as int),
        ));
        assert(head + segments(Seq::<char>::empty()) =~= head);
    }
    assert(s@.skip(at as int) =~= seq![]);
    assert(text::char_lists(parts@) + segments(s@.skip(at as int)) =~= text::char_lists(parts@));
    parts
}

fn strip_git(s: &[char]) -> (rest: &[char])
    ensures
        rest@ == without_git(s@),
{
    proof {
        reveal_strlit(".git");
    }
    let mut len: usize = s.len();
    assert(s@.take(len as int) =~= s@);
    while len >= 4 && s[len - 4] == '.' && s[len - 3] == 'g' && s[len - 2] == 'i' && s[len - 1]
        == 't'
        invariant
            len <= s@.len(),
            without_git(s@) == without_git(s@.take(len as int)),
            ".git"@ =~= seq!['.', 'g', 'i', 't'],
        decreases len,
    {
        let ghost now = s@.take(len as int);
        assert(now.skip(len - 4) =~= ".git"@);
        assert(now.take(len - 4) =~= s@.take(len - 4));
        len -= 4;
    }
    proof {
        let now = s@.take(len as int);
        if len >= 4 {
            let tail = now.skip(len - 4);
            assert(tail[0] == s@[len - 4] && tail[1] == s@[len - 3] && tail[2] == s@[len - 2]
                && tail[3] == s@[len - 1]);
            assert(tail != ".git"@);
        }
    }
    let rest = slice_subrange(s, 0, len);
    assert(rest@ =~= s@.take(len as int));
    rest
}

fn strip_from<'a>(s: &'a [char], c: char) -> (rest: &'a [char])
    ensures
        rest@ == up_to(s@, c),
        rest@.len() <= s@.len(),
{
    let end: usize = find_char(s, c);
    let rest = slice_subrange(s, 0, end);
    assert(rest@ =~= up_to(s@, c));
    rest
}

fn strip_port(host: &[char]) -> (rest: &[char])
    ensures
        rest@ == up_to(host@, ':'),
        rest@.len() <= host@.len(),
{
    strip_from(host, ':')
}

fn lower(s: &[char]) -> (result: Vec<char>)
    ensures
        result@ == lowered(s@),
{
    let mut result: Vec<char> = Vec::new();
    let mut i: usize = 0;
    while i < s.len()
        invariant
            i <= s@.len(),
            result@ == lowered(s@.take(i as int)),
        decreases s@.len() - i,
    {
        result.push(to_ascii_lower(s[i]));
        i += 1;
        assert(result@ =~= lowered(s@.take(i as int)));
    }
    assert(s@.take(i as int) =~= s@);
    result
}

impl RepoSlug {
    /// The repository that a remote URL names, in the three ways in which git writes one:
    /// `user@host:owner/name.git`, a URL with a scheme, and `host/owner/name`. A URL that names
    /// none gives nothing.
    pub fn parse(url: &str) -> (slug: Option<Self>)
        ensures
            match slug {
                Some(slug) => slug_of(url@) == Some(slug@),
                None => slug_of(url@) is None,
            },
    {
        let chars = chars_of(url);
        let (host, path) = match host_and_path(trim(chars.as_slice())) {
            Some(place) => place,
            None => {
                return None;
            },
        };
        let parts = split_segments(path);
        let ghost shown = text::char_lists(parts@);
        let count: usize = parts.len();
        if !holds(strip_port(host), '.') || count < 2 {
            return None;
        }
        assert(shown[count - 2] == parts@[count - 2]@ && shown.last() == parts@[count - 1]@);
        let name = strip_git(parts[count - 1].as_slice());
        if name.len() == 0 {
            return None;
        }
        Some(
            RepoSlug {
                host: string_of(lower(strip_port(host)).as_slice()),
                owner: string_of(parts[count - 2].as_slice()),
                name: string_of(name),
            },
        )
    }

    /// Where the forge answers requests about its repositories: on a host of its own, or below a
    /// path of an enterprise host.
    pub open spec fn base(self) -> Seq<char> {
        if self.host@ == "github.com"@ {
            "https://api.github.com"@
        } else {
            "https://"@ + self.host@ + "/api/v3"@
        }
    }

    pub fn api_base(&self) -> (base: String)
        ensures
            base@ == self.base(),
    {
        if same_text(self.host.as_str(), "github.com") {
            "https://api.github.com".to_owned()
        } else {
            let mut base = "https://".to_owned();
            base.append(self.host.as_str());
            base.append("/api/v3");
            base
        }
    }

    /// Whether the repository is on GitHub itself.
    pub open spec fn on_github(self) -> bool {
        let suffix = ".github.com"@;
        let host = self.host@;
        host == "github.com"@ || (host.len() >= suffix.len() && host.skip(
            host.len() - suffix.len(),
        ) == suffix)
    }

    pub fn is_github(&self) -> (github: bool)
        ensures
            github == self.on_github(),
    {
        proof {
            reveal_strlit(".github.com");
        }
        if same_text(self.host.as_str(), "github.com") {
            return true;
        }
        let host = chars_of(self.host.as_str());
        let suffix = chars_of(".github.com");
        if host.len() < suffix.len() {
            return false;
        }
        let tail = slice_subrange(host.as_slice(), host.len() - suffix.len(), host.len());
        assert(tail@ =~= host@.skip(host@.len() - suffix@.len()));
        text::same_chars(tail, suffix.as_slice())
    }
}

/// A text that holds neither a separator of a remote URL nor white space.
pub open spec fn is_plain(s: Seq<char>) -> bool {
    forall|i: int|
        0 <= i < s.len() ==> s[i] != '/' && s[i] != ':' && s[i] != '@'
            && !text::is_white_space(#[trigger] s[i])
}

proof fn lemma_no_scheme(s: Seq<char>)
    requires
        forall|i: int| 0 <= i < s.len() - 1 && s[i] == ':' ==> #[trigger] s[i + 1] != '/',
    ensures
        text::index_of_text(s, "://"@) is None,
    decreases s.len(),
{
    reveal_strlit("://");
    if s.len() >= 3 {
        assert(s.take(3)[0] == s[0] && s.take(3)[1] == s[0int + 1]);
    }
    if s.len() > 0 {
        assert forall|i: int| 0 <= i < s.skip(1).len() - 1 && s.skip(1)[i] == ':' implies
            #[trigger] s.skip(1)[i + 1] != '/' by {
            assert(s[(i + 1) + 1] != '/');
        }
        lemma_no_scheme(s.skip(1));
    }
}

proof fn lemma_segment(a: Seq<char>, rest: Seq<char>)
    requires
        a.len() > 0,
        forall|i: int| 0 <= i < a.len() ==> a[i] != '/',
    ensures
        segments(a.push('/') + rest) == seq![a] + segments(rest),
        segments(a) == seq![a],
{
    let s = a.push('/') + rest;
    assert(s =~= a + (seq!['/'] + rest));
    text::lemma_index_past(a, seq!['/'] + rest, '/');
    assert(s.take(a.len() as int) =~= a);
    assert(s.skip(a.len() as int + 1) =~= rest);
    assert(a + seq![] =~= a);
    text::lemma_index_past(a, seq![], '/');
    assert(a.take(a.len() as int) =~= a);
}

/// The segments of a path that names a repository.
proof fn lemma_path(lead: Seq<char>, owner: Seq<char>, file: Seq<char>)
    requires
        is_plain(owner),
        is_plain(file),
        owner.len() > 0,
        file.len() > 0,
        lead == "/"@ || lead.len() == 0,
    ensures
        segments(lead + owner + "/"@ + file) == seq![owner, file],
        !(lead + owner + "/"@ + file).contains('@'),
{
    reveal_strlit("/");
    let inner = owner.push('/') + file;
    lemma_segment(owner, file);
    lemma_segment(file, seq![]);
    assert(seq![owner] + seq![file] =~= seq![owner, file]);
    let path = lead + owner + "/"@ + file;
    if lead.len() == 0 {
        assert(path =~= inner);
    } else {
        assert(path =~= seq!['/'] + inner);
        assert(text::index_of_char(path, '/') == 0);
        assert(path.skip(1) =~= inner);
        assert(Seq::<Seq<char>>::empty() + segments(inner) =~= segments(inner));
    }
    let at = lead.len() as int;
    assert forall|i: int| 0 <= i < path.len() implies path[i] != '@' by {
        if at <= i < at + owner.len() {
            assert(path[i] == owner[i - at]);
        } else if i > at + owner.len() {
            assert(path[i] == file[i - at - owner.len() - 1]);
        }
    }
}

/// What a URL names whose place is known.
proof fn lemma_slug(
    url: Seq<char>,
    host: Seq<char>,
    path: Seq<char>,
    owner: Seq<char>,
    file: Seq<char>,
)
    requires
        place_of(text::trimmed(url)) == Some(Place { host, path }),
        segments(path) == seq![owner, file],
        is_host(host),
        up_to(host, ':') == host,
        lowered(host) == host,
        without_git(file).len() > 0,
    ensures
        slug_of(url) == Some(SlugView { host, owner, name: without_git(file) }),
{
    assert(segments(path)[0] == owner && segments(path).last() == file);
}

/// Each way in which git writes a remote URL names the repository that it was written for: with a
/// scheme, with or without a user; as `user@host:owner/name`; and as host and path alone. With
/// `.git` at its end or without, the name is the same. It holds for every scheme but that of files,
/// for a host with a dot in it, written in lower case, and for parts that hold no separator of their
/// own; the name does not itself end in `.git`. Alone with its path, the host must not start with
/// the dot: that is a directory.
pub proof fn law_every_form_names_the_repository(
    scheme: Seq<char>,
    user: Seq<char>,
    host: Seq<char>,
    owner: Seq<char>,
    name: Seq<char>,
    git: bool,
)
    requires
        is_scheme(scheme),
        scheme != "file"@,
        is_plain(user),
        is_plain(host),
        is_plain(owner),
        is_plain(name),
        user.len() > 0,
        owner.len() > 0,
        name.len() > 0,
        host.contains('.'),
        lowered(host) == host,
        without_git(name) == name,
    ensures
        ({
            let file = if git {
                name + ".git"@
            } else {
                name
            };
            let path = "/"@ + owner + "/"@ + file;
            let slug = Some(SlugView { host, owner, name });
            &&& slug_of(scheme + "://"@ + host + path) == slug
            &&& slug_of(scheme + "://"@ + user + "@"@ + host + path) == slug
            &&& slug_of(user + "@"@ + host + ":"@ + owner + "/"@ + file) == slug
            &&& host[0] != '.' ==> slug_of(host + path) == slug
        }),
{
    reveal_strlit(".git");
    reveal_strlit("/");
    let file = if git {
        name + ".git"@
    } else {
        name
    };
    assert(is_plain(file));
    assert(without_git(file) == name) by {
        if git {
            assert(file.skip(file.len() - 4) =~= ".git"@);
            assert(file.take(file.len() - 4) =~= name);
        }
    }
    lemma_plain_host(host);
    lemma_path("/"@, owner, file);
    lemma_path(Seq::empty(), owner, file);
    assert(Seq::<char>::empty() + owner + "/"@ + file =~= owner + "/"@ + file);
    let path = "/"@ + owner + "/"@ + file;
    assert(path.last() == file.last());
    if host[0] != '.' {
        lemma_bare(host, path, owner, file);
        lemma_slug(host + path, host, path, owner, file);
    }
    lemma_with_scheme(scheme, user, host, path);
    lemma_with_colon(user, host, owner, file);
    lemma_slug(scheme + "://"@ + host + path, host, path, owner, file);
    lemma_slug(scheme + "://"@ + user + "@"@ + host + path, host, path, owner, file);
    let short = user + "@"@ + host + ":"@ + owner + "/"@ + file;
    lemma_slug(short, host, owner + "/"@ + file, owner, file);
}

/// A longer path ends in the repository: the parts before owner and name do not matter.
pub proof fn law_longer_paths_end_in_the_repository(
    scheme: Seq<char>,
    host: Seq<char>,
    above: Seq<char>,
    owner: Seq<char>,
    name: Seq<char>,
)
    requires
        is_scheme(scheme),
        scheme != "file"@,
        is_plain(host),
        is_plain(owner),
        is_plain(name),
        owner.len() > 0,
        name.len() > 0,
        !above.contains('@'),
        host.contains('.'),
        lowered(host) == host,
        without_git(name) == name,
    ensures
        slug_of(scheme + "://"@ + host + "/"@ + above + "/"@ + owner + "/"@ + name) == Some(
            SlugView { host, owner, name },
        ),
{
    reveal_strlit("/");
    let short = "/"@ + owner + "/"@ + name;
    let path = "/"@ + above + short;
    let url = scheme + "://"@ + host + path;
    assert(url =~= scheme + "://"@ + host + "/"@ + above + "/"@ + owner + "/"@ + name);
    lemma_plain_host(host);
    lemma_path("/"@, owner, name);
    lemma_path(Seq::empty(), owner, name);
    let inner = Seq::<char>::empty() + owner + "/"@ + name;
    assert(path =~= ("/"@ + above) + seq!['/'] + inner);
    lemma_segments_joined("/"@ + above, inner);
    assert forall|i: int| 0 <= i < path.len() implies path[i] != '@' by {
        let head = above.len() as int + 1;
        if 0 < i < head {
            assert(path[i] == above[i - 1]);
            assert(above.contains(above[i - 1]));
        } else if i >= head {
            assert(path[i] == short[i - head]);
            assert(short.contains(short[i - head]));
        }
    }
    assert(path.last() == name.last());
    lemma_with_scheme(scheme, host, host, path);
    let parts = segments(path);
    assert(parts =~= segments("/"@ + above) + seq![owner, name]);
    assert(parts.last() == name && parts[parts.len() - 2] == owner);
}

/// The parts of two paths, one behind the other.
proof fn lemma_segments_joined(a: Seq<char>, b: Seq<char>)
    ensures
        segments(a + seq!['/'] + b) == segments(a) + segments(b),
    decreases a.len(),
{
    let whole = a + seq!['/'] + b;
    let end = text::index_of_char(a, '/');
    lemma_first(a, seq!['/'] + b, '/');
    assert(whole =~= a + (seq!['/'] + b));
    if a.len() == 0 {
        assert(whole.skip(1) =~= b);
        assert(segments(whole) =~= segments(a) + segments(b));
    } else if end < a.len() {
        lemma_segments_joined(a.skip(end + 1), b);
        assert(whole.take(end) =~= a.take(end));
        assert(whole.skip(end + 1) =~= a.skip(end + 1) + seq!['/'] + b);
        assert(segments(whole) =~= segments(a) + segments(b));
    } else {
        lemma_segment(a, b);
        assert(whole =~= a.push('/') + b);
    }
}

/// The first `c` of a text stays the first when more follows.
proof fn lemma_first(a: Seq<char>, b: Seq<char>, c: char)
    ensures
        0 <= text::index_of_char(a, c) <= a.len(),
        text::index_of_char(a, c) < a.len() ==> text::index_of_char(a + b, c)
            == text::index_of_char(a, c),
        text::index_of_char(a, c) == a.len() ==> forall|i: int| 0 <= i < a.len() ==> a[i] != c,
    decreases a.len(),
{
    if a.len() > 0 && a[0] != c {
        lemma_first(a.skip(1), b, c);
        assert((a + b).skip(1) =~= a.skip(1) + b);
        assert((a + b)[0] == a[0]);
        if text::index_of_char(a, c) == a.len() {
            assert forall|i: int| 0 <= i < a.len() implies a[i] != c by {
                if i > 0 {
                    assert(a[i] == a.skip(1)[i - 1]);
                }
            }
        }
    }
}

/// A path into a directory names no repository, whatever the directories are called.
pub proof fn law_directories_name_nothing(rest: Seq<char>)
    ensures
        slug_of("/"@ + rest) is None,
        slug_of("./"@ + rest) is None,
        slug_of("../"@ + rest) is None,
{
    reveal_strlit("/");
    reveal_strlit("./");
    reveal_strlit("../");
    lemma_directory(Seq::empty(), rest);
    lemma_directory(seq!['.'], rest);
    lemma_directory(seq!['.', '.'], rest);
    assert("/"@ + rest =~= Seq::<char>::empty() + seq!['/'] + rest);
    assert("./"@ + rest =~= seq!['.'] + seq!['/'] + rest);
    assert("../"@ + rest =~= seq!['.', '.'] + seq!['/'] + rest);
}

proof fn lemma_directory(dots: Seq<char>, rest: Seq<char>)
    requires
        forall|i: int| 0 <= i < dots.len() ==> #[trigger] dots[i] == '.',
    ensures
        slug_of(dots + seq!['/'] + rest) is None,
{
    let whole = dots + seq!['/'] + rest;
    let url = text::trimmed(whole);
    assert forall|i: int| 0 <= i <= dots.len() implies !text::is_white_space(
        #[trigger] whole[i],
    ) by {
        if i < dots.len() {
            assert(whole[i] == dots[i]);
        }
    }
    lemma_trimmed_keeps_head(whole, dots.len() as int);
    assert forall|i: int| 0 <= i <= dots.len() implies #[trigger] url[i] == whole[i] by {
        assert(url.len() > dots.len());
        lemma_trimmed_is_shorter(whole);
        assert(url == whole.take(url.len() as int));
    }
    assert(url[dots.len() as int] == '/');
    assert(url =~= dots + (seq!['/'] + url.skip(dots.len() as int + 1)));
    text::lemma_index_past(dots, seq!['/'] + url.skip(dots.len() as int + 1), '/');
    assert(text::index_of_char(url, '/') == dots.len());
    match text::index_of_text(url, "://"@) {
        Some(end) => {
            let scheme = url.take(end);
            if is_scheme(scheme) {
                lemma_text_found(url, end);
                if dots.len() < end {
                    assert(scheme[dots.len() as int] == '/');
                    assert(is_scheme_char(scheme[dots.len() as int]));
                } else if end > 0 {
                    assert(scheme[0] == url[0]);
                    if dots.len() > 0 {
                        assert(url[0] == dots[0]);
                    }
                }
            }
        },
        None => {
            if url.contains('@') {
                let head = dots + seq!['/'];
                let tail = url.skip(dots.len() as int + 1);
                assert(url =~= head + tail);
                text::lemma_index_past(head, tail, '@');
                lemma_first(tail, seq![], '@');
                assert(up_to(url, '@')[dots.len() as int] == '/');
            } else if dots.len() == 0 {
                let host = at_slash(url).host;
                assert(host.len() == 0);
                assert(up_to(host, ':').len() == 0);
            }
        },
    }
}

/// Without white space up to `n`, the start of a text stays where it is.
proof fn lemma_trimmed_keeps_head(s: Seq<char>, n: int)
    requires
        0 <= n < s.len(),
        forall|i: int| 0 <= i <= n ==> !text::is_white_space(#[trigger] s[i]),
    ensures
        text::trimmed(s).len() > n,
        text::trimmed(s) == s.take(text::trimmed(s).len() as int),
{
    assert(!text::is_white_space(s[0]));
    assert(text::trimmed_start(s) == s);
    lemma_trimmed_end_keeps_head(s, n);
}

proof fn lemma_trimmed_end_keeps_head(s: Seq<char>, n: int)
    requires
        0 <= n < s.len(),
        !text::is_white_space(s[n]),
    ensures
        text::trimmed_end(s).len() > n,
        text::trimmed_end(s) == s.take(text::trimmed_end(s).len() as int),
    decreases s.len(),
{
    if text::is_white_space(s.last()) {
        assert(n < s.len() - 1);
        lemma_trimmed_end_keeps_head(s.drop_last(), n);
        lemma_trimmed_end_is_shorter(s.drop_last());
        assert(s.drop_last().take(text::trimmed_end(s).len() as int) =~= s.take(
            text::trimmed_end(s).len() as int,
        ));
    } else {
        assert(s.take(s.len() as int) =~= s);
    }
}

proof fn lemma_trimmed_is_shorter(s: Seq<char>)
    requires
        s.len() > 0,
        !text::is_white_space(s[0]),
    ensures
        text::trimmed(s).len() <= s.len(),
{
    lemma_trimmed_end_is_shorter(s);
}

proof fn lemma_trimmed_end_is_shorter(s: Seq<char>)
    ensures
        text::trimmed_end(s).len() <= s.len(),
    decreases s.len(),
{
    if s.len() > 0 && text::is_white_space(s.last()) {
        lemma_trimmed_end_is_shorter(s.drop_last());
    }
}

proof fn lemma_plain_host(host: Seq<char>)
    requires
        is_plain(host),
        host.contains('.'),
    ensures
        is_host(host),
        up_to(host, ':') == host,
        after(host, '@') == host,
{
    assert(host + seq![] =~= host);
    text::lemma_index_past(host, seq![], ':');
    text::lemma_index_past(host, seq![], '@');
    assert(up_to(host, ':') =~= host);
}

proof fn lemma_split(host: Seq<char>, path: Seq<char>)
    requires
        is_plain(host),
        path.len() > 0,
        path[0] == '/',
    ensures
        at_slash(host + path) == (Place { host, path }),
{
    assert(path =~= seq!['/'] + path.skip(1));
    text::lemma_index_past(host, path, '/');
    assert((host + path).take(host.len() as int) =~= host);
    assert((host + path).skip(host.len() as int) =~= path);
}

/// Host and path alone have no scheme and no user, and no white space around them.
proof fn lemma_bare(host: Seq<char>, path: Seq<char>, owner: Seq<char>, file: Seq<char>)
    requires
        is_plain(host),
        is_plain(owner),
        is_plain(file),
        host.len() > 0,
        host[0] != '.',
        file.len() > 0,
        path == "/"@ + owner + "/"@ + file,
    ensures
        place_of(text::trimmed(host + path)) == Some(Place { host, path }),
{
    reveal_strlit("/");
    let url = host + path;
    assert forall|i: int| 0 <= i < url.len() implies url[i] != ':' && url[i] != '@' by {
        let a = host.len() as int;
        let b = owner.len() as int;
        if i < a {
            assert(url[i] == host[i]);
        } else if a < i < a + 1 + b {
            assert(url[i] == owner[i - a - 1]);
        } else if i > a + 1 + b {
            assert(url[i] == file[i - a - b - 2]);
        }
    }
    lemma_no_scheme(url);
    assert(url[0] == host[0] && url.last() == file.last());
    text::lemma_not_trimmed(url);
    lemma_split(host, path);
}

/// Scheme and user fall away.
proof fn lemma_with_scheme(scheme: Seq<char>, user: Seq<char>, host: Seq<char>, path: Seq<char>)
    requires
        is_scheme(scheme),
        scheme != "file"@,
        is_plain(user),
        is_plain(host),
        after(host, '@') == host,
        path.len() > 0,
        path[0] == '/',
        !path.contains('@'),
        !text::is_white_space(path.last()),
    ensures
        place_of(text::trimmed(scheme + "://"@ + host + path)) == Some(Place { host, path }),
        place_of(text::trimmed(scheme + "://"@ + user + "@"@ + host + path)) == Some(
            Place { host, path },
        ),
{
    reveal_strlit("://");
    reveal_strlit("@");
    assert forall|i: int| 0 <= i < scheme.len() implies scheme[i] != ':' && scheme[i] != '/'
        && !text::is_white_space(#[trigger] scheme[i]) by {
        assert(is_scheme_char(scheme[i]));
    }
    let bare = host + path;
    let whole = scheme + "://"@ + host + path;
    assert(whole =~= scheme + "://"@ + bare);
    lemma_scheme(scheme, bare);
    assert(whole[0] == scheme[0] && whole.last() == path.last());
    text::lemma_not_trimmed(whole);
    assert(whole.skip(scheme.len() as int + 3) =~= bare);
    assert(whole.take(scheme.len() as int) =~= scheme);
    lemma_split(host, path);
    assert(!bare.contains('@')) by {
        assert forall|i: int| 0 <= i < bare.len() implies bare[i] != '@' by {
            if i < host.len() {
                assert(bare[i] == host[i]);
            } else {
                assert(bare[i] == path[i - host.len()]);
                assert(path.contains(path[i - host.len()]));
            }
        }
    }
    let authority = user + "@"@ + host;
    let rest = authority + path;
    let with_user = scheme + "://"@ + user + "@"@ + host + path;
    assert(with_user =~= scheme + "://"@ + rest);
    lemma_scheme(scheme, rest);
    assert(with_user[0] == scheme[0] && with_user.last() == path.last());
    text::lemma_not_trimmed(with_user);
    assert(with_user.skip(scheme.len() as int + 3) =~= rest);
    assert(with_user.take(scheme.len() as int) =~= scheme);
    assert forall|i: int| 0 <= i < authority.len() implies authority[i] != '/' by {
        if i < user.len() {
            assert(authority[i] == user[i]);
        } else if i > user.len() {
            assert(authority[i] == host[i - user.len() - 1]);
        }
    }
    assert(path =~= seq!['/'] + path.skip(1));
    text::lemma_index_past(authority, path, '/');
    assert(rest.take(authority.len() as int) =~= authority);
    assert(rest.skip(authority.len() as int) =~= path);
    assert(authority =~= user + ("@"@ + host));
    text::lemma_index_past(user, "@"@ + host, '@');
    assert(authority.skip(user.len() as int + 1) =~= host);
    assert(rest =~= user + ("@"@ + host + path));
    text::lemma_index_past(user, "@"@ + host + path, '@');
    assert(up_to(rest, '@') =~= user);
}

/// The user falls away, and the colon ends the host.
proof fn lemma_with_colon(user: Seq<char>, host: Seq<char>, owner: Seq<char>, file: Seq<char>)
    requires
        is_plain(user),
        is_plain(host),
        is_plain(owner),
        is_plain(file),
        user.len() > 0,
        owner.len() > 0,
        file.len() > 0,
    ensures
        place_of(text::trimmed(user + "@"@ + host + ":"@ + owner + "/"@ + file)) == Some(
            Place { host, path: owner + "/"@ + file },
        ),
{
    reveal_strlit("/");
    reveal_strlit("@");
    reveal_strlit(":");
    let path = owner + "/"@ + file;
    let tail = host + ":"@ + owner + "/"@ + file;
    let short = user + "@"@ + host + ":"@ + owner + "/"@ + file;
    assert(short =~= user + ("@"@ + tail));
    text::lemma_index_past(user, "@"@ + tail, '@');
    assert(short.skip(user.len() as int + 1) =~= tail);
    assert(short.take(user.len() as int) =~= user);
    assert(short[user.len() as int] == '@');
    assert(short[0] == user[0] && short.last() == file.last());
    text::lemma_not_trimmed(short);
    assert(tail =~= host + (":"@ + path));
    text::lemma_index_past(host, ":"@ + path, ':');
    assert(tail.take(host.len() as int) =~= host);
    assert(tail.skip(host.len() as int + 1) =~= path);
    assert(tail[host.len() as int] == ':');
    assert forall|i: int| 0 <= i < short.len() - 1 && short[i] == ':' implies #[trigger] short[i
        + 1] != '/' by {
        let u = user.len() as int;
        let a = host.len() as int;
        let b = owner.len() as int;
        if i < u {
            assert(short[i] == user[i]);
        } else if u < i < u + 1 + a {
            assert(short[i] == host[i - u - 1]);
        } else if i == u + 1 + a {
            assert(short[i + 1] == owner[0]);
        } else if u + 1 + a < i < u + 2 + a + b {
            assert(short[i] == owner[i - u - a - 2]);
        } else if i > u + 2 + a + b {
            assert(short[i] == file[i - u - a - b - 3]);
        }
    }
    lemma_no_scheme(short);
}

/// What is found is there.
proof fn lemma_text_found(s: Seq<char>, at: int)
    requires
        text::index_of_text(s, "://"@) == Some(at),
    ensures
        0 <= at,
        at + 3 <= s.len(),
        s[at] == ':',
    decreases s.len(),
{
    reveal_strlit("://");
    if s.len() >= 3 && s.take(3) == "://"@ {
        assert(s.take(3)[0] == s[0]);
    } else {
        lemma_text_found(s.skip(1), at - 1);
    }
}

proof fn lemma_scheme(scheme: Seq<char>, rest: Seq<char>)
    requires
        forall|i: int| 0 <= i < scheme.len() ==> #[trigger] scheme[i] != ':',
    ensures
        text::index_of_text(scheme + "://"@ + rest, "://"@) == Some(scheme.len() as int),
    decreases scheme.len(),
{
    reveal_strlit("://");
    let whole = scheme + "://"@ + rest;
    if scheme.len() == 0 {
        assert(whole.take(3) =~= "://"@);
    } else {
        assert(whole.take(3)[0] == scheme[0]);
        assert(whole.skip(1) =~= scheme.skip(1) + "://"@ + rest);
        assert forall|i: int| 0 <= i < scheme.skip(1).len() implies #[trigger] scheme.skip(1)[i]
            != ':' by {
            assert(scheme.skip(1)[i] == scheme[i + 1]);
        }
        lemma_scheme(scheme.skip(1), rest);
    }
}

/// Every host below GitHub's own is GitHub, and one that only ends in the same letters is not.
pub proof fn law_hosts_of_github(slug: RepoSlug, name: Seq<char>)
    requires
        slug.host@ == name + "github.com"@,
    ensures
        name.len() == 0 ==> slug.on_github(),
        name.len() > 0 ==> (slug.on_github() <==> name.last() == '.'),
{
    reveal_strlit("github.com");
    reveal_strlit(".github.com");
    let host = slug.host@;
    if name.len() == 0 {
        assert(host =~= "github.com"@);
    } else {
        assert(host.len() != "github.com"@.len());
        let tail = host.skip(host.len() - 11);
        assert(tail[0] == name.last());
        if name.last() == '.' {
            assert(tail =~= ".github.com"@);
        } else {
            assert(tail[0] != ".github.com"@[0]);
        }
    }
}

} // verus!
