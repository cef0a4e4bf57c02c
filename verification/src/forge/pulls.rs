//! The listing of a repository's open pull requests: how it is asked for, and what it counts.

use crate::forge::auth::ForgeAuth;
use crate::forge::RepoSlug;
use crate::text;
use crate::text::eq_ignore_ascii_case;
use serde_json::Value;
use vstd::prelude::*;
use vstd::string::*;

verus! {

/// `serde_json`'s value.
#[verifier::external_type_specification]
#[verifier::external_body]
pub struct ExValue(Value);

/// What a JSON value holds.
pub ghost enum Json {
    Flag(bool),
    Text(Seq<char>),
    Items(Seq<Json>),
    Fields(Map<Seq<char>, Json>),
    Other,
}

/// What a `serde_json::Value` holds.
pub uninterp spec fn json_of(value: Value) -> Json;

/// The values in the JSON array that `serde_json::from_slice` reads; nothing where it reads none.
pub uninterp spec fn parsed_items(bytes: Seq<u8>) -> Option<Seq<Json>>;

/// What each of some values holds.
pub open spec fn all_json(values: Seq<Value>) -> Seq<Json> {
    values.map_values(|value: Value| json_of(value))
}

/// Calls `serde_json::from_slice` for a list of values and drops its error. The claim: whether
/// there is a list, and what its values hold, depends on the bytes alone.
#[verifier::external_body]
fn parse_items(bytes: &[u8]) -> (items: Option<Vec<Value>>)
    ensures
        match items {
            Some(items) => parsed_items(bytes@) == Some(all_json(items@)),
            None => parsed_items(bytes@) is None,
        },
{
    serde_json::from_slice(bytes).ok()
}

/// Calls `serde_json::Value::get` with a key. The claim: it gives the value of the field of that
/// name, and nothing where the value is no object or has no such field.
#[verifier::external_body]
fn field<'a>(value: &'a Value, key: &str) -> (found: Option<&'a Value>)
    ensures
        match found {
            Some(found) => json_of(*value) is Fields && json_of(*value)->Fields_0.contains_key(key@)
                && json_of(*value)->Fields_0[key@] == json_of(*found),
            None => json_of(*value) is Fields ==> !json_of(*value)->Fields_0.contains_key(key@),
        },
{
    value.get(key)
}

/// Calls `serde_json::Value::as_bool`. The claim: it gives what a boolean is, and nothing for
/// another value.
#[verifier::external_body]
fn flag(value: &Value) -> (found: Option<bool>)
    ensures
        match found {
            Some(found) => json_of(*value) == Json::Flag(found),
            None => !(json_of(*value) is Flag),
        },
{
    value.as_bool()
}

/// Calls `serde_json::Value::as_array`. The claim: it gives the values of an array, and nothing
/// for another value.
#[verifier::external_body]
fn items(value: &Value) -> (found: Option<&Vec<Value>>)
    ensures
        match found {
            Some(found) => json_of(*value) == Json::Items(all_json(found@)),
            None => !(json_of(*value) is Items),
        },
{
    value.as_array()
}

/// Calls `serde_json::Value::as_str`. The claim: it gives the text of a string, and nothing for
/// another value.
#[verifier::external_body]
fn string(value: &Value) -> (found: Option<&str>)
    ensures
        match found {
            Some(found) => json_of(*value) == Json::Text(found@),
            None => !(json_of(*value) is Text),
        },
{
    value.as_str()
}

/// What the counters need to know of a pull request.
#[derive(Debug, PartialEq, Eq)]
pub struct PullRequest {
    pub draft: bool,
    /// The logins of those who were asked to review it.
    pub reviewers: Vec<String>,
}

/// A pull request by its texts.
#[verifier::ext_equal]
pub ghost struct PullView {
    pub draft: bool,
    pub reviewers: Seq<Seq<char>>,
}

impl View for PullRequest {
    type V = PullView;

    open spec fn view(&self) -> PullView {
        PullView { draft: self.draft, reviewers: text::texts(self.reviewers@) }
    }
}

/// Pull requests by their texts.
pub open spec fn pull_views(pulls: Seq<PullRequest>) -> Seq<PullView> {
    pulls.map_values(|pull: PullRequest| pull@)
}

/// A field of a JSON value.
pub open spec fn json_field(value: Json, key: Seq<char>) -> Option<Json> {
    if value is Fields && value->Fields_0.contains_key(key) {
        Some(value->Fields_0[key])
    } else {
        None
    }
}

/// The logins in a list of people, of those that have one.
pub open spec fn logins(reviewers: Seq<Json>) -> Seq<Seq<char>>
    decreases reviewers.len(),
{
    if reviewers.len() == 0 {
        seq![]
    } else {
        match json_field(reviewers.last(), "login"@) {
            Some(Json::Text(login)) => logins(reviewers.drop_last()).push(login),
            _ => logins(reviewers.drop_last()),
        }
    }
}

/// A pull request of a listing. One that does not say that it is a draft is none, and one without
/// a list of people who were asked to read it has nobody to wait for.
pub open spec fn read_pull(value: Json) -> PullView {
    PullView {
        draft: json_field(value, "draft"@) == Some(Json::Flag(true)),
        reviewers: match json_field(value, "requested_reviewers"@) {
            Some(Json::Items(reviewers)) => logins(reviewers),
            _ => seq![],
        },
    }
}

/// The pull requests of a listing.
pub open spec fn read_pulls(values: Seq<Json>) -> Seq<PullView> {
    values.map_values(|value: Json| read_pull(value))
}

fn reviewer_logins(reviewers: &[Value]) -> (found: Vec<String>)
    ensures
        text::texts(found@) == logins(all_json(reviewers@)),
{
    let mut found: Vec<String> = Vec::new();
    let mut i: usize = 0;
    assert(text::texts(found@) =~= logins(all_json(reviewers@.take(0))));
    while i < reviewers.len()
        invariant
            i <= reviewers@.len(),
            text::texts(found@) == logins(all_json(reviewers@.take(i as int))),
        decreases reviewers@.len() - i,
    {
        let ghost now = all_json(reviewers@.take(i + 1));
        assert(now.drop_last() =~= all_json(reviewers@.take(i as int)));
        assert(now.last() == json_of(reviewers@[i as int]));
        let ghost before = text::texts(found@);
        if let Some(login) = field(&reviewers[i], "login") {
            if let Some(login) = string(login) {
                found.push(text::duplicate(login));
                assert(text::texts(found@) =~= before.push(login@));
            }
        }
        i += 1;
    }
    assert(reviewers@.take(i as int) =~= reviewers@);
    found
}

fn pull_request(value: &Value) -> (pull: PullRequest)
    ensures
        pull@ == read_pull(json_of(*value)),
{
    let draft = match field(value, "draft") {
        Some(draft) => match flag(draft) {
            Some(draft) => draft,
            None => false,
        },
        None => false,
    };
    let reviewers = match field(value, "requested_reviewers") {
        Some(reviewers) => match items(reviewers) {
            Some(reviewers) => reviewer_logins(reviewers.as_slice()),
            None => Vec::new(),
        },
        None => Vec::new(),
    };
    let pull = PullRequest { draft, reviewers };
    assert(pull@ =~= read_pull(json_of(*value)));
    pull
}

/// The pull requests in the listing that the forge sent; nothing where it sent anything but a
/// list.
pub fn parse_pull_requests(bytes: &[u8]) -> (pulls: Option<Vec<PullRequest>>)
    ensures
        match pulls {
            Some(pulls) => parsed_items(bytes@) is Some && pull_views(pulls@) == read_pulls(
                parsed_items(bytes@)->0,
            ),
            None => parsed_items(bytes@) is None,
        },
{
    let values = match parse_items(bytes) {
        Some(values) => values,
        None => {
            return None;
        },
    };
    let mut pulls: Vec<PullRequest> = Vec::new();
    let mut i: usize = 0;
    while i < values.len()
        invariant
            i <= values@.len(),
            pull_views(pulls@) == read_pulls(all_json(values@.take(i as int))),
        decreases values@.len() - i,
    {
        let pull = pull_request(&values[i]);
        let ghost before = pulls@;
        pulls.push(pull);
        assert(pull_views(pulls@) =~= pull_views(pulls@.drop_last()).push(pull@));
        assert(pulls@.drop_last() =~= before);
        assert(read_pulls(all_json(values@.take(i + 1))) =~= read_pulls(
            all_json(values@.take(i as int)),
        ).push(pull@));
        i += 1;
    }
    assert(values@.take(i as int) =~= values@);
    Some(pulls)
}

/// Open pull requests of a repository.
#[derive(Debug, Clone, Copy, PartialEq, Eq, Structural)]
pub struct PullRequestCounts {
    /// Those that are no drafts.
    pub open: usize,
    /// Those that are drafts.
    pub draft: usize,
    /// Those among the open ones that wait for a review by the user.
    pub review_requested: usize,
}

impl Default for PullRequestCounts {
    fn default() -> (counts: Self)
        ensures
            counts == (PullRequestCounts { open: 0, draft: 0, review_requested: 0 }),
    {
        PullRequestCounts { open: 0, draft: 0, review_requested: 0 }
    }
}

/// Whether a pull request waits for a review by the user: it is no draft, and the user is among
/// those who were asked. Case does not matter in a login. Without a login it waits for nobody.
pub open spec fn waits_for(pull: PullView, login: Option<Seq<char>>) -> bool {
    !pull.draft && login is Some && exists|i: int|
        0 <= i < pull.reviewers.len() && text::same_ignoring_ascii_case(
            #[trigger] pull.reviewers[i],
            login->0,
        )
}

/// How many pull requests are drafts.
pub open spec fn drafts(pulls: Seq<PullView>) -> nat {
    pulls.filter(|pull: PullView| pull.draft).len()
}

/// How many pull requests wait for a review by the user.
pub open spec fn waiting(pulls: Seq<PullView>, login: Option<Seq<char>>) -> nat {
    pulls.filter(|pull: PullView| waits_for(pull, login)).len()
}

fn reviews(pull: &PullRequest, login: &str) -> (found: bool)
    ensures
        found == exists|i: int|
            0 <= i < pull@.reviewers.len() && text::same_ignoring_ascii_case(
                #[trigger] pull@.reviewers[i],
                login@,
            ),
{
    let mut i: usize = 0;
    while i < pull.reviewers.len()
        invariant
            i <= pull.reviewers@.len(),
            forall|j: int|
                0 <= j < i ==> !text::same_ignoring_ascii_case(
                    #[trigger] pull@.reviewers[j],
                    login@,
                ),
        decreases pull.reviewers@.len() - i,
    {
        assert(pull@.reviewers[i as int] == pull.reviewers@[i as int]@);
        if eq_ignore_ascii_case(pull.reviewers[i].as_str(), login) {
            return true;
        }
        i += 1;
    }
    false
}

/// A text that may be missing.
pub open spec fn option_str(text: Option<&str>) -> Option<Seq<char>> {
    match text {
        Some(text) => Some(text@),
        None => None,
    }
}

/// Counts a listing. Each pull request is open or a draft, and only an open one can wait for a
/// review.
pub fn count_pull_requests(pulls: &[PullRequest], login: Option<&str>) -> (counts:
    PullRequestCounts)
    ensures
        counts.draft == drafts(pull_views(pulls@)),
        counts.open + counts.draft == pulls@.len(),
        counts.review_requested == waiting(pull_views(pulls@), option_str(login)),
{
    let mut counts = PullRequestCounts::default();
    let mut i: usize = 0;
    let len: usize = pulls.len();
    let ghost shown = pull_views(pulls@);
    let ghost is_draft = |pull: PullView| pull.draft;
    let ghost is_waiting = |pull: PullView| waits_for(pull, option_str(login));
    proof {
        reveal(Seq::filter);
    }
    while i < len
        invariant
            i <= len == pulls@.len(),
            shown == pull_views(pulls@),
            is_draft == (|pull: PullView| pull.draft),
            is_waiting == (|pull: PullView| waits_for(pull, option_str(login))),
            counts.draft == shown.take(i as int).filter(is_draft).len(),
            counts.open + counts.draft == i,
            counts.review_requested <= i,
            counts.review_requested == shown.take(i as int).filter(is_waiting).len(),
        decreases len - i,
    {
        let pull = &pulls[i];
        proof {
            reveal(Seq::filter);
            let now = shown.take(i + 1);
            assert(now.drop_last() =~= shown.take(i as int));
            assert(now.last() == pull@);
        }
        i += 1;
        if pull.draft {
            counts.draft += 1;
        } else {
            counts.open += 1;
            if let Some(name) = login {
                if reviews(pull, name) {
                    counts.review_requested += 1;
                }
            }
        }
    }
    assert(shown.take(i as int) =~= shown);
    counts
}

/// No pull request counts twice as open or draft, and no more wait for the user than are open.
pub proof fn law_waiting_is_open(pulls: Seq<PullView>, login: Option<Seq<char>>)
    ensures
        drafts(pulls) + waiting(pulls, login) <= pulls.len(),
        login is None ==> waiting(pulls, login) == 0,
    decreases pulls.len(),
{
    reveal(Seq::filter);
    if pulls.len() > 0 {
        law_waiting_is_open(pulls.drop_last(), login);
    }
}

/// Counts the reply of the forge: nothing where the request failed or the reply is no listing,
/// because not to have been told is not the same as zero.
pub fn counts_from_reply(success: bool, reply: &[u8], login: Option<&str>) -> (counts: Option<
    PullRequestCounts,
>)
    ensures
        match counts {
            Some(counts) => success && parsed_items(reply@) is Some && ({
                let pulls = read_pulls(parsed_items(reply@)->0);
                &&& counts.draft == drafts(pulls)
                &&& counts.open + counts.draft == pulls.len()
                &&& counts.review_requested == waiting(pulls, option_str(login))
            }),
            None => !success || parsed_items(reply@) is None,
        },
{
    if !success {
        return None;
    }
    match parse_pull_requests(reply) {
        Some(pulls) => {
            assert(pull_views(pulls@).len() == pulls@.len());
            Some(count_pull_requests(pulls.as_slice(), login))
        },
        None => None,
    }
}

/// A request to the forge: the arguments of `curl`, and what is written to its input. The token
/// stands in the input alone, since everyone on the machine can read arguments.
#[derive(Debug)]
pub struct FetchRequest {
    pub arguments: Vec<String>,
    pub input: String,
}

/// The listing of a repository's open pull requests.
pub open spec fn pulls_url(slug: RepoSlug) -> Seq<char> {
    slug.base() + "/repos/"@ + slug.owner@ + "/"@ + slug.name@ + "/pulls?state=open&per_page=100"@
}

/// The arguments of `curl` for a repository's listing.
pub open spec fn fetch_arguments(slug: RepoSlug, version: Seq<char>) -> Seq<Seq<char>> {
    seq![
        "--silent"@,
        "--show-error"@,
        "--fail"@,
        "--location"@,
        "--max-time"@,
        "10"@,
        "--header"@,
        "Accept: application/vnd.github+json"@,
        "--header"@,
        "X-GitHub-Api-Version: 2022-11-28"@,
        "--header"@,
        "User-Agent: herdr/"@ + version,
        "--header"@,
        "@-"@,
        pulls_url(slug),
    ]
}

fn listing_url(slug: &RepoSlug) -> (url: String)
    ensures
        url@ == pulls_url(*slug),
{
    let mut url = slug.api_base();
    url.append("/repos/");
    url.append(slug.owner.as_str());
    url.append("/");
    url.append(slug.name.as_str());
    url.append("/pulls?state=open&per_page=100");
    url
}

/// How to ask for a repository's open pull requests; only GitHub is asked.
pub fn fetch_request(slug: &RepoSlug, auth: &ForgeAuth, version: &str) -> (request: Option<
    FetchRequest,
>)
    ensures
        request is Some == slug.on_github(),
        request is Some ==> text::texts(request->0.arguments@) == fetch_arguments(*slug, version@)
            && request->0.input@ == "Authorization: Bearer "@ + auth.token@ + "\n"@,
{
    if !slug.is_github() {
        return None;
    }
    let mut agent = "User-Agent: herdr/".to_owned();
    agent.append(version);
    let mut arguments: Vec<String> = Vec::new();
    arguments.push("--silent".to_owned());
    arguments.push("--show-error".to_owned());
    arguments.push("--fail".to_owned());
    arguments.push("--location".to_owned());
    arguments.push("--max-time".to_owned());
    arguments.push("10".to_owned());
    arguments.push("--header".to_owned());
    arguments.push("Accept: application/vnd.github+json".to_owned());
    arguments.push("--header".to_owned());
    arguments.push("X-GitHub-Api-Version: 2022-11-28".to_owned());
    arguments.push("--header".to_owned());
    arguments.push(agent);
    arguments.push("--header".to_owned());
    arguments.push("@-".to_owned());
    arguments.push(listing_url(slug));
    assert(text::texts(arguments@) =~= fetch_arguments(*slug, version@));
    let mut input = "Authorization: Bearer ".to_owned();
    input.append(auth.token.as_str());
    input.append("\n");
    Some(FetchRequest { arguments, input })
}

/// Every pull request counts for itself: a draft as a draft and nothing else, and another as waiting
/// exactly where the user is among those that it asks, in whatever case the login is written.
pub proof fn law_each_pull_request_counts(
    pulls: Seq<PullView>,
    pull: PullView,
    login: Seq<char>,
    reviewer: int,
)
    ensures
        drafts(pulls.push(pull)) == drafts(pulls) + (if pull.draft {
            1nat
        } else {
            0
        }),
        pull.draft ==> waiting(pulls.push(pull), Some(login)) == waiting(pulls, Some(login)),
        !pull.draft && 0 <= reviewer < pull.reviewers.len() && text::same_ignoring_ascii_case(
            pull.reviewers[reviewer],
            login,
        ) ==> waiting(pulls.push(pull), Some(login)) == waiting(pulls, Some(login)) + 1,
        (forall|i: int|
            0 <= i < pull.reviewers.len() ==> !text::same_ignoring_ascii_case(
                #[trigger] pull.reviewers[i],
                login,
            )) ==> waiting(pulls.push(pull), Some(login)) == waiting(pulls, Some(login)),
        drafts(Seq::empty()) == 0,
        waiting(Seq::empty(), Some(login)) == 0,
{
    reveal(Seq::filter);
    assert(pulls.push(pull).drop_last() =~= pulls);
}

/// A listing is read entry by entry. An entry is a draft where its own field says so, and it
/// asks those whose logins stand in its own list, in order, without those who have none.
pub proof fn law_entries_are_read_as_they_are(
    fields: Map<Seq<char>, Json>,
    reviewers: Seq<Json>,
    last: Map<Seq<char>, Json>,
    login: Seq<char>,
    values: Seq<Json>,
    i: int,
)
    requires
        0 <= i < values.len(),
    ensures
        ({
            let pull = read_pull(Json::Fields(fields));
            &&& pull.draft <==> fields.contains_key("draft"@) && fields["draft"@] == Json::Flag(true)
            &&& fields.contains_key("requested_reviewers"@) && fields["requested_reviewers"@]
                == Json::Items(reviewers) ==> pull.reviewers == logins(reviewers)
            &&& !fields.contains_key("requested_reviewers"@) ==> pull.reviewers.len() == 0
        }),
        last.contains_key("login"@) && last["login"@] == Json::Text(login) ==> logins(
            reviewers.push(Json::Fields(last)),
        ) == logins(reviewers).push(login),
        !last.contains_key("login"@) ==> logins(reviewers.push(Json::Fields(last))) == logins(
            reviewers,
        ),
        logins(Seq::empty()).len() == 0,
        read_pulls(values).len() == values.len(),
        read_pulls(values)[i] == read_pull(values[i]),
{
    assert(reviewers.push(Json::Fields(last)).drop_last() =~= reviewers);
}

/// The listing is that of the repository's own open pull requests: the path names owner and name,
/// behind the forge's own address.
pub proof fn law_the_listing_is_that_of_the_repository(slug: RepoSlug, version: Seq<char>)
    ensures
        pulls_url(slug) == slug.base() + "/repos/"@ + slug.owner@ + "/"@ + slug.name@
            + "/pulls?state=open&per_page=100"@,
        fetch_arguments(slug, version).last() == pulls_url(slug),
        fetch_arguments(slug, version).contains("User-Agent: herdr/"@ + version),
        slug.host@ == "github.com"@ ==> slug.base() == "https://api.github.com"@,
        slug.host@ != "github.com"@ ==> slug.base() == "https://"@ + slug.host@ + "/api/v3"@,
{
    assert(fetch_arguments(slug, version)[11] == "User-Agent: herdr/"@ + version);
}

/// An argument stands right behind the option that it belongs to.
pub open spec fn has_option(arguments: Seq<Seq<char>>, option: Seq<char>, value: Seq<char>) -> bool {
    exists|i: int|
        0 <= i < arguments.len() - 1 && #[trigger] arguments[i] == option && arguments[i + 1]
            == value
}

/// The listing is fetched within ten seconds, with an error where the answer is one, as the kind of
/// answer and in the version of the interface that can be read, under the program's own name and
/// version, and with a header that is read from the input, so that the token is in no argument.
pub proof fn law_how_a_listing_is_fetched(slug: RepoSlug, version: Seq<char>)
    ensures
        ({
            let arguments = fetch_arguments(slug, version);
            &&& arguments.contains("--fail"@)
            &&& arguments.contains("--silent"@)
            &&& arguments.contains("--show-error"@)
            &&& arguments.contains("--location"@)
            &&& has_option(arguments, "--max-time"@, "10"@)
            &&& has_option(arguments, "--header"@, "Accept: application/vnd.github+json"@)
            &&& has_option(arguments, "--header"@, "X-GitHub-Api-Version: 2022-11-28"@)
            &&& has_option(arguments, "--header"@, "User-Agent: herdr/"@ + version)
            &&& has_option(arguments, "--header"@, "@-"@)
        }),
{
    let arguments = fetch_arguments(slug, version);
    assert(arguments[0] == "--silent"@ && arguments[1] == "--show-error"@);
    assert(arguments[2] == "--fail"@ && arguments[3] == "--location"@);
    assert(arguments[4] == "--max-time"@ && arguments[5] == "10"@);
    assert(arguments[6] == "--header"@ && arguments[7]
        == "Accept: application/vnd.github+json"@);
    assert(arguments[8] == "--header"@ && arguments[9] == "X-GitHub-Api-Version: 2022-11-28"@);
    assert(arguments[10] == "--header"@ && arguments[11] == "User-Agent: herdr/"@ + version);
    assert(arguments[12] == "--header"@ && arguments[13] == "@-"@);
}

} // verus!
