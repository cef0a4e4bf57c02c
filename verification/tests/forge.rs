use herdr::forge::auth::{
    auth_from_environment, auth_from_gh_hosts, auth_from_gh_output, gh_hosts_base, resolve_auth,
    AuthLearned, AuthStep, ForgeAuth, HostsBase,
};
use herdr::forge::pulls::{
    count_pull_requests, counts_from_reply, fetch_request, parse_pull_requests, PullRequest,
    PullRequestCounts,
};
use herdr::forge::RepoSlug;

#[test]
fn parses_the_remote_url_forms_git_actually_writes() {
    let cases = [
        (
            "git@github.com:owner/name.git",
            "github.com",
            "owner",
            "name",
        ),
        (
            "https://github.com/owner/name.git",
            "github.com",
            "owner",
            "name",
        ),
        (
            "https://github.com/owner/name",
            "github.com",
            "owner",
            "name",
        ),
        (
            "ssh://git@github.com/owner/name.git",
            "github.com",
            "owner",
            "name",
        ),
        (
            "git://github.com/owner/name.git",
            "github.com",
            "owner",
            "name",
        ),
        (
            "https://ghe.example.com/owner/name.git",
            "ghe.example.com",
            "owner",
            "name",
        ),
    ];

    for (url, host, owner, name) in cases {
        let slug = RepoSlug::parse(url).unwrap_or_else(|| panic!("should parse {url}"));
        assert_eq!(slug.host, host, "host for {url}");
        assert_eq!(slug.owner, owner, "owner for {url}");
        assert_eq!(slug.name, name, "name for {url}");
    }
}

#[test]
fn refuses_urls_it_cannot_name_a_repository_from() {
    for url in ["", "git@myalias:owner/name.git", "name.git", "/local/path"] {
        assert_eq!(RepoSlug::parse(url), None, "should refuse {url}");
    }
}

#[test]
fn strips_a_port_from_the_host() {
    let slug =
        RepoSlug::parse("ssh://git@ghe.example.com:2222/owner/name.git").expect("should parse");
    assert_eq!(slug.host, "ghe.example.com");
    assert_eq!(slug.owner, "owner");
}

#[test]
fn enterprise_hosts_use_the_v3_api_path() {
    let slug = RepoSlug::parse("https://ghe.example.com/o/n").expect("should parse");
    assert_eq!(slug.api_base(), "https://ghe.example.com/api/v3");
    assert!(!slug.is_github());

    let slug = RepoSlug::parse("https://github.com/o/n").expect("should parse");
    assert_eq!(slug.api_base(), "https://api.github.com");
    assert!(slug.is_github());
}

fn pulls(json: &str) -> Vec<PullRequest> {
    parse_pull_requests(json.as_bytes()).expect("array of pulls")
}

#[test]
fn drafts_are_counted_apart_from_open_pull_requests() {
    let pulls = pulls(
        r#"[
            {"draft": false, "requested_reviewers": []},
            {"draft": true, "requested_reviewers": []},
            {"draft": false, "requested_reviewers": [{"login": "captain"}]}
        ]"#,
    );
    let counts = count_pull_requests(&pulls, Some("captain"));

    assert_eq!(counts.open, 2);
    assert_eq!(counts.draft, 1);
    assert_eq!(counts.review_requested, 1);
}

#[test]
fn review_requests_need_a_known_login_to_be_attributed() {
    let pulls = pulls(r#"[{"draft": false, "requested_reviewers": [{"login": "someone"}]}]"#);
    let counts = count_pull_requests(&pulls, None);

    assert_eq!(counts.open, 1);
    assert_eq!(counts.review_requested, 0);
}

#[test]
fn a_draft_that_requested_review_is_not_counted_as_waiting() {
    let pulls = pulls(r#"[{"draft": true, "requested_reviewers": [{"login": "captain"}]}]"#);
    let counts = count_pull_requests(&pulls, Some("captain"));

    assert_eq!(counts.open, 0);
    assert_eq!(counts.draft, 1);
    assert_eq!(counts.review_requested, 0);
}

#[test]
fn reads_token_and_login_out_of_a_gh_hosts_file() {
    let auth = auth_from_gh_hosts(
        "github.com:\n    users:\n        captain: {oauth_token: nested}\n    user: captain\n    oauth_token: gho_example\n",
        "github.com",
    );

    let auth = auth.expect("hosts.yml should yield auth");
    assert_eq!(auth.token, "gho_example");
    assert_eq!(auth.login.as_deref(), Some("captain"));
}

#[test]
fn a_host_absent_from_gh_hosts_yields_no_auth() {
    let auth = auth_from_gh_hosts(
        "ghe.example.com:\n    oauth_token: gho_other\n",
        "github.com",
    );

    assert_eq!(auth, None);
}

#[test]
fn every_form_names_the_same_repository() {
    for url in [
        "https://code.example.org/a/b",
        "https://code.example.org/a/b.git",
        "ssh://git@code.example.org/a/b",
        "git@code.example.org:a/b.git",
        "code.example.org/a/b",
        "  https://CODE.example.org/a/b.git.git/ \n",
    ] {
        let slug = RepoSlug::parse(url).unwrap_or_else(|| panic!("should parse {url}"));
        assert_eq!(slug.host, "code.example.org");
        assert_eq!(slug.owner, "a");
        assert_eq!(slug.name, "b");
    }
}

#[test]
fn a_name_that_is_only_a_suffix_is_no_name() {
    assert_eq!(RepoSlug::parse("https://example.org/a/.git"), None);
    assert_eq!(RepoSlug::parse("https://example.org/b"), None);
    assert_eq!(RepoSlug::parse("host:80.1/a/b"), None);
}

#[test]
fn subdomains_of_github_are_github() {
    let slug = |host: &str| RepoSlug {
        host: host.to_string(),
        owner: "o".to_string(),
        name: "n".to_string(),
    };
    assert!(slug("ssh.github.com").is_github());
    assert!(!slug("notgithub.com").is_github());
    assert!(!slug("github.com.example.org").is_github());
    assert_eq!(slug("ssh.github.com").api_base(), "https://ssh.github.com/api/v3");
}

#[test]
fn what_a_listing_leaves_out_is_not_made_up() {
    let pulls = pulls(
        r#"[{}, {"draft": "true", "requested_reviewers": "captain"}, 7,
            {"requested_reviewers": [{"login": 1}, {"name": "captain"}, {"login": "CAPTAIN"}]}]"#,
    );
    assert_eq!(pulls.len(), 4);
    assert!(pulls.iter().all(|pull| !pull.draft));
    assert_eq!(pulls[3].reviewers, vec!["CAPTAIN".to_string()]);
    assert_eq!(
        count_pull_requests(&pulls, Some("captain")),
        PullRequestCounts {
            open: 4,
            draft: 0,
            review_requested: 1
        }
    );
}

#[test]
fn a_reply_that_is_no_listing_counts_nothing() {
    assert_eq!(counts_from_reply(true, b"{}", None), None);
    assert_eq!(counts_from_reply(true, b"[", None), None);
    assert_eq!(counts_from_reply(false, b"[]", None), None);
    assert_eq!(
        counts_from_reply(true, b"[]", None),
        Some(PullRequestCounts::default())
    );
    assert_eq!(
        counts_from_reply(true, br#"[{"draft":true}]"#, Some("x")),
        Some(PullRequestCounts {
            open: 0,
            draft: 1,
            review_requested: 0
        })
    );
}

#[test]
fn no_more_wait_than_are_open() {
    let pull = |draft: bool| PullRequest {
        draft,
        reviewers: vec!["me".to_string(), "Me".to_string()],
    };
    let counts = count_pull_requests(&[pull(true), pull(false), pull(false)], Some("ME"));
    assert_eq!((counts.open, counts.draft, counts.review_requested), (2, 1, 2));
}

#[test]
fn the_environment_is_read_in_order() {
    let value = |text: &str| Some(text.to_string());
    assert_eq!(
        auth_from_environment(&[None, value(" \t"), value(" b \n"), value("c")]),
        Some(ForgeAuth {
            token: "b".to_string(),
            login: None
        })
    );
    assert_eq!(auth_from_environment(&[None, value("")]), None);
}

#[test]
fn a_hosts_file_is_read_by_its_sections() {
    let contents = "# a comment\n\nother.example:\n    oauth_token: first\nhost.example:\n\n  # more\n  user : \"me\"\n  oauth_token: ''\n  oauth_token: 'two'\n  oauth_token: three\nlast.example:\n  oauth_token: four\n";
    assert_eq!(
        auth_from_gh_hosts(contents, "host.example"),
        Some(ForgeAuth {
            token: "two".to_string(),
            login: Some("me".to_string())
        })
    );
    assert_eq!(
        auth_from_gh_hosts(contents, "last.example").map(|auth| auth.token),
        Some("four".to_string())
    );
    assert_eq!(auth_from_gh_hosts("h:\n  user: me\n", "h"), None);
}

#[test]
fn sources_are_asked_one_after_the_other() {
    let host = "github.com";
    assert_eq!(
        resolve_auth(&AuthLearned::Environment(vec![None]), host),
        AuthStep::ReadHostsFile
    );
    assert_eq!(
        resolve_auth(&AuthLearned::HostsFile(None), host),
        AuthStep::AskProgram
    );
    assert_eq!(
        resolve_auth(&AuthLearned::HostsFile(Some("x:\n".to_string())), host),
        AuthStep::AskProgram
    );
    assert_eq!(
        resolve_auth(
            &AuthLearned::Program {
                success: true,
                printed: b" \n".to_vec()
            },
            host
        ),
        AuthStep::Missing
    );
    assert_eq!(
        resolve_auth(
            &AuthLearned::Program {
                success: true,
                printed: b"token\n".to_vec()
            },
            host
        ),
        AuthStep::Found(ForgeAuth {
            token: "token".to_string(),
            login: None
        })
    );
}

#[test]
fn a_program_that_fails_gives_no_token() {
    assert_eq!(auth_from_gh_output(false, b"token"), None);
    assert_eq!(auth_from_gh_output(true, b"\xff"), None);
}

#[test]
fn the_hosts_file_is_looked_for_like_gh_does() {
    assert_eq!(gh_hosts_base(true, true, true), Some(HostsBase::Given));
    assert_eq!(gh_hosts_base(false, true, true), Some(HostsBase::Configuration));
    assert_eq!(gh_hosts_base(false, false, true), Some(HostsBase::Home));
    assert_eq!(gh_hosts_base(false, false, false), None);
}

#[test]
fn the_token_is_not_among_the_arguments() {
    let slug = RepoSlug::parse("https://github.com/o/n").expect("should parse");
    let auth = ForgeAuth {
        token: "sesame".to_string(),
        login: None,
    };
    let request = fetch_request(&slug, &auth, "1.2.3").expect("github is asked");
    assert_eq!(request.input, "Authorization: Bearer sesame\n");
    assert_eq!(request.arguments.len(), 15);
    assert_eq!(request.arguments[5], "10");
    assert_eq!(request.arguments[11], "User-Agent: herdr/1.2.3");
    assert_eq!(
        request.arguments[14],
        "https://api.github.com/repos/o/n/pulls?state=open&per_page=100"
    );
    assert!(request.arguments.iter().all(|argument| !argument.contains("sesame")));
    let slug = RepoSlug::parse("https://ghe.example.com/o/n").expect("should parse");
    assert!(fetch_request(&slug, &auth, "1.2.3").is_none());
}

#[test]
fn directories_and_other_paths_name_no_repository() {
    for url in [
        "../owner/name.git",
        "./owner/name",
        "../a@b.example:owner/name",
        "/srv.git/owner/name",
        "file:///srv.git/owner/name",
        "file://host.example/owner/name",
        "./a://host.example/owner/name",
        ".hidden/owner/name",
        "git@host.example/owner/name",
        "https:///owner/name.git",
        "https://host.example/owner/name@v1",
        "ssh://dir/git@host.example/owner/name",
        "://host.example/owner/name",
    ] {
        assert_eq!(RepoSlug::parse(url), None, "{url}");
    }
    assert_eq!(
        RepoSlug::parse("host.example:8080/owner/name").map(|slug| slug.host),
        Some("host.example".to_string())
    );
    assert_eq!(
        RepoSlug::parse("https://.example/owner/name").map(|slug| slug.host),
        Some(".example".to_string())
    );
}

#[test]
fn a_longer_path_ends_in_the_repository() {
    for url in [
        "https://host.example/group/owner/name",
        "https://host.example/group/sub/owner/name.git",
        "git@host.example:2222/owner/name",
        "git@host.example:group/owner/name.git",
        "host.example/group/owner/name",
        "host.example:group/owner/name",
        "ssh://git@host.example:22/group//owner/name/",
    ] {
        let slug = RepoSlug::parse(url).unwrap_or_else(|| panic!("should parse {url}"));
        assert_eq!(slug.host, "host.example", "{url}");
        assert_eq!(slug.owner, "owner", "{url}");
        assert_eq!(slug.name, "name", "{url}");
    }
}

#[test]
fn only_the_entries_of_a_host_count() {
    let contents = "github.com:\n    users:\n        captain:\n            oauth_token: nested\n            user: nobody\n    user: captain\n    oauth_token: gho_example\n";
    assert_eq!(
        auth_from_gh_hosts(contents, "github.com"),
        Some(ForgeAuth {
            token: "gho_example".to_string(),
            login: Some("captain".to_string())
        })
    );
    let nested = "github.com:\n    users:\n        captain:\n            oauth_token: nested\n";
    assert_eq!(auth_from_gh_hosts(nested, "github.com"), None);
}
