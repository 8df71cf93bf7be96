use usage_report::repo::{
    repo_query, resolve_repo_filter, strip_protocol, RepoQuery, RepoReply,
};

/// The canonical form of an address: here, without `.git` at its end.
fn canonical(url: &str) -> Result<String, String> {
    Ok(url.strip_suffix(".git").unwrap_or(url).to_string())
}

/// Asks about a repository and resolves it with the reply.
fn resolve(value: &str, at_path: fn(&str) -> RepoReply) -> Result<String, String> {
    let reply = match repo_query(value)? {
        RepoQuery::NormalizeUrl(url) => RepoReply::Normalized(canonical(&url)),
        RepoQuery::LookUpPath(path) => at_path(&path),
    };
    resolve_repo_filter(value, reply)
}

#[test]
fn resolve_repo_filter_accepts_url_and_path_forms() {
    assert_eq!(
        resolve("https://github.com/org/repo.git", |_| RepoReply::NoRepository).unwrap(),
        "https://github.com/org/repo"
    );
    assert_eq!(
        resolve("some/path", |_| RepoReply::Address("https://github.com/org/repo".to_string()))
            .unwrap(),
        "https://github.com/org/repo"
    );
}

#[test]
fn addresses_and_paths_are_told_apart() {
    for url in ["https://host/x", "ssh://host/x", "git@host:org/x", "odd://", "a://b"] {
        assert_eq!(
            repo_query(&format!(" {url}\n")),
            Ok(RepoQuery::NormalizeUrl(url.to_string()))
        );
    }
    for path in [".", "/home/me/repo", "host:org/x", "mygit@host", "git", "a:/b"] {
        assert_eq!(
            repo_query(&format!("\t{path} ")),
            Ok(RepoQuery::LookUpPath(path.to_string()))
        );
    }
}

#[test]
fn an_empty_repository_is_refused() {
    for value in ["", "  ", "\n\u{3000}"] {
        assert_eq!(
            repo_query(value),
            Err("Invalid --repo value: empty string.".to_string())
        );
        assert_eq!(
            resolve_repo_filter(value, RepoReply::NoRepository),
            Err("Invalid --repo value: empty string.".to_string())
        );
    }
}

#[test]
fn refusals_name_the_value_as_it_was_given() {
    assert_eq!(
        resolve(" x ", |_| RepoReply::NoRepository),
        Err("No git repository found at path ' x '.".to_string())
    );
    assert_eq!(
        resolve(" x ", |_| RepoReply::NoAddress),
        Err("Failed to resolve repository URL from path ' x '.".to_string())
    );
    assert_eq!(
        resolve_repo_filter(
            "a://b",
            RepoReply::Normalized(Err("no host".to_string()))
        ),
        Err("no host".to_string())
    );
}

#[test]
fn protocols_are_not_shown() {
    for url in [
        "https://github.com/org/repo",
        "http://github.com/org/repo",
        "https://https://x",
        "https://http://http://x",
        "http://https://x",
        "git@github.com:org/repo",
        "https://",
        "http:/x",
        "",
        "é://x",
    ] {
        assert_eq!(
            strip_protocol(url),
            url.trim_start_matches("https://").trim_start_matches("http://")
        );
    }
    assert_eq!(strip_protocol("https://github.com/org/repo"), "github.com/org/repo");
    assert_eq!(strip_protocol("http://https://x"), "https://x");
}
