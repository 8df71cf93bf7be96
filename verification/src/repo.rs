//! Repositories: how one is selected, and how its address is shown.

use crate::text::{
    after_prefix, begins_with, chars_of, contains, occurs_at, occurs_here, occurs_in, outcome, trim,
    trimmed,
};
use vstd::prelude::*;

verus! {

/// The text without a prefix, as often as it occurs at the start.
pub open spec fn without_prefix(s: Seq<char>, prefix: Seq<char>) -> Seq<char>
    decreases s.len(),
{
    if prefix.len() > 0 && begins_with(s, prefix) {
        without_prefix(s.skip(prefix.len() as int), prefix)
    } else {
        s
    }
}

/// The address without the protocol that it starts with.
pub open spec fn without_protocol(url: Seq<char>) -> Seq<char> {
    without_prefix(without_prefix(url, "https://"@), "http://"@)
}

fn skip_prefix(chars: &Vec<char>, prefix: &Vec<char>, from: usize) -> (after: usize)
    requires
        from <= chars.len(),
        prefix.len() > 0,
    ensures
        from <= after <= chars.len(),
        chars@.skip(after as int) == without_prefix(chars@.skip(from as int), prefix@),
{
    let mut after: usize = from;
    while occurs_here(chars, prefix, after)
        invariant
            from <= after <= chars.len(),
            prefix.len() > 0,
            without_prefix(chars@.skip(after as int), prefix@) == without_prefix(
                chars@.skip(from as int),
                prefix@,
            ),
        ensures
            !occurs_at(chars@, prefix@, after as int),
        decreases chars.len() - after,
    {
        let ghost rest = chars@.skip(after as int);
        assert(rest.subrange(0, prefix@.len() as int) =~= prefix@);
        assert(rest.skip(prefix@.len() as int) =~= chars@.skip(after + prefix@.len()));
        after = after + prefix.len();
    }
    proof {
        let rest = chars@.skip(after as int);
        if begins_with(rest, prefix@) {
            assert(chars@.subrange(after as int, after + prefix@.len()) =~= rest.subrange(
                0,
                prefix@.len() as int,
            ));
        }
    }
    after
}

/// Strip `https://` or `http://` from a URL for display purposes.
pub fn strip_protocol(url: &str) -> (shown: &str)
    ensures
        shown@ == without_protocol(url@),
{
    proof {
        reveal_strlit("https://");
        reveal_strlit("http://");
    }
    let chars = chars_of(url);
    let after: usize = skip_prefix(&chars, &chars_of("https://"), 0);
    assert(chars@.skip(0) =~= chars@);
    let after: usize = skip_prefix(&chars, &chars_of("http://"), after);
    assert(url@.subrange(after as int, url@.len() as int) =~= url@.skip(after as int));
    url.substring_char(after, chars.len())
}

/// What has to be found out about a repository before it can be selected.
#[derive(Debug, PartialEq, Eq)]
pub enum RepoQuery {
    /// The canonical form of an address.
    NormalizeUrl(String),
    /// The address of the repository that a path lies in.
    LookUpPath(String),
}

/// What was found out about a repository.
#[derive(Debug, PartialEq, Eq)]
pub enum RepoReply {
    /// The canonical form of the address, or why it has none.
    Normalized(Result<String, String>),
    /// The path lies in no repository.
    NoRepository,
    /// The path lies in a repository without an address.
    NoAddress,
    /// The address of the repository that the path lies in.
    Address(String),
}

/// Whether a repository is selected by its address rather than by a path.
pub open spec fn is_address(s: Seq<char>) -> bool {
    occurs_in(s, "://"@) || begins_with(s, "git@"@) || begins_with(s, "ssh://"@)
}

/// What is asked about the repository that a value selects.
pub open spec fn asked_about(value: Seq<char>, query: RepoQuery) -> bool {
    match query {
        RepoQuery::NormalizeUrl(url) => is_address(trimmed(value)) && url@ == trimmed(value),
        RepoQuery::LookUpPath(path) => !is_address(trimmed(value)) && path@ == trimmed(value),
    }
}

/// Whether a reply answers what is asked about the repository that a value selects.
pub open spec fn answers(value: Seq<char>, reply: RepoReply) -> bool {
    is_address(trimmed(value)) == (reply is Normalized)
}

/// The address that a value selects, given the reply to what is asked about it.
pub open spec fn selected_repo(value: Seq<char>, reply: RepoReply) -> Result<Seq<char>, Seq<char>> {
    if trimmed(value).len() == 0 {
        Err("Invalid --repo value: empty string."@)
    } else {
        match reply {
            RepoReply::Normalized(result) => outcome(result),
            RepoReply::NoRepository => Err(
                "No git repository found at path '"@ + value + "'."@,
            ),
            RepoReply::NoAddress => Err(
                "Failed to resolve repository URL from path '"@ + value + "'."@,
            ),
            RepoReply::Address(url) => Ok(url@),
        }
    }
}

/// What has to be found out before a `--repo` value can be resolved. An empty value is refused
/// without asking anything.
pub fn repo_query(value: &str) -> (query: Result<RepoQuery, String>)
    ensures
        match query {
            Ok(query) => trimmed(value@).len() > 0 && asked_about(value@, query),
            Err(answer) => trimmed(value@).len() == 0 && answer@
                == "Invalid --repo value: empty string."@,
        },
{
    let target = trim(value);
    if target.as_str().unicode_len() == 0 {
        return Err("Invalid --repo value: empty string.".to_owned());
    }
    if contains(target.as_str(), "://") || after_prefix(target.as_str(), "git@").is_some()
        || after_prefix(target.as_str(), "ssh://").is_some() {
        Ok(RepoQuery::NormalizeUrl(target))
    } else {
        Ok(RepoQuery::LookUpPath(target))
    }
}

/// The address that a `--repo` value selects, given the reply to what [`repo_query`] asks.
pub fn resolve_repo_filter(value: &str, reply: RepoReply) -> (url: Result<String, String>)
    requires
        trimmed(value@).len() > 0 ==> answers(value@, reply),
    ensures
        outcome(url) == selected_repo(value@, reply),
{
    if trim(value).as_str().unicode_len() == 0 {
        return Err("Invalid --repo value: empty string.".to_owned());
    }
    match reply {
        RepoReply::Normalized(result) => result,
        RepoReply::NoRepository => Err(
            "No git repository found at path '".to_owned().concat(value).concat("'."),
        ),
        RepoReply::NoAddress => Err(
            "Failed to resolve repository URL from path '".to_owned().concat(value).concat("'."),
        ),
        RepoReply::Address(url) => Ok(url),
    }
}

/// Of an address with one protocol, or with none, what follows the protocol is shown.
pub proof fn lemma_one_protocol(rest: Seq<char>)
    requires
        !begins_with(rest, "https://"@),
        !begins_with(rest, "http://"@),
    ensures
        without_protocol("https://"@ + rest) == rest,
        without_protocol("http://"@ + rest) == rest,
        without_protocol(rest) == rest,
{
    reveal_strlit("https://");
    reveal_strlit("http://");
    reveal_with_fuel(without_prefix, 2);
    let secure = "https://"@ + rest;
    let plain = "http://"@ + rest;
    assert(secure.subrange(0, 8) =~= "https://"@);
    assert(secure.skip(8) =~= rest);
    assert(plain.subrange(0, 7) =~= "http://"@);
    assert(plain.skip(7) =~= rest);
    if begins_with(plain, "https://"@) {
        assert(plain.subrange(0, 8)[4] == plain[4]);
        assert("https://"@[4] == 's');
        assert("http://"@[4] == ':');
    }
}

proof fn lemma_without_prefix(s: Seq<char>, prefix: Seq<char>)
    requires
        prefix.len() > 0,
    ensures
        !begins_with(without_prefix(s, prefix), prefix),
        without_prefix(s, prefix).len() <= s.len(),
        without_prefix(s, prefix) == s.skip(s.len() - without_prefix(s, prefix).len()),
    decreases s.len(),
{
    if begins_with(s, prefix) {
        let rest = s.skip(prefix.len() as int);
        lemma_without_prefix(rest, prefix);
        let shown = without_prefix(rest, prefix);
        assert(rest.skip(rest.len() - shown.len()) =~= s.skip(s.len() - shown.len()));
    } else {
        assert(s.skip(0) =~= s);
    }
}

/// What is shown of an address is its end, and does not begin with `http://`.
pub proof fn lemma_shown_address(url: Seq<char>)
    ensures
        without_protocol(url).len() <= url.len(),
        without_protocol(url) == url.skip(url.len() - without_protocol(url).len()),
        !begins_with(without_protocol(url), "http://"@),
{
    reveal_strlit("https://");
    reveal_strlit("http://");
    let once = without_prefix(url, "https://"@);
    lemma_without_prefix(url, "https://"@);
    lemma_without_prefix(once, "http://"@);
    let shown = without_protocol(url);
    assert(once.skip(once.len() - shown.len()) =~= url.skip(url.len() - shown.len()));
}

/// Protocols are stripped one by one: `https://` as often as an address starts with it, and after
/// that `http://` as often as it follows. What starts with neither is shown as it is.
pub proof fn lemma_protocols_stripped(rest: Seq<char>)
    ensures
        without_protocol("https://"@ + rest) == without_protocol(rest),
        !begins_with(rest, "https://"@) ==> without_protocol("http://"@ + rest) == without_protocol(
            rest,
        ),
        begins_with(rest, "https://"@) ==> without_protocol("http://"@ + rest) == rest,
        !begins_with(rest, "https://"@) && !begins_with(rest, "http://"@) ==> without_protocol(rest)
            == rest,
{
    reveal_strlit("https://");
    reveal_strlit("http://");
    reveal_with_fuel(without_prefix, 2);
    let secure = "https://"@ + rest;
    let plain = "http://"@ + rest;
    assert(secure.subrange(0, 8) =~= "https://"@);
    assert(secure.skip(8) =~= rest);
    assert(plain.subrange(0, 7) =~= "http://"@);
    assert(plain.skip(7) =~= rest);
    assert("https://"@[4] == 's' && "http://"@[4] == ':');
    if begins_with(plain, "https://"@) {
        assert(plain.subrange(0, 8)[4] == plain[4]);
    }
    if begins_with(rest, "https://"@) {
        assert(rest.subrange(0, 8)[4] == rest[4]);
        if begins_with(rest, "http://"@) {
            assert(rest.subrange(0, 7)[4] == rest[4]);
        }
    }
}

/// A value is taken as an address if it holds `://` or begins with `git@`, and as a path otherwise,
/// in each case without the white space around it.
pub proof fn lemma_asked_about(value: Seq<char>, query: RepoQuery)
    requires
        asked_about(value, query),
    ensures
        query is NormalizeUrl <==> (exists|i: int| occurs_at(trimmed(value), "://"@, i))
            || begins_with(trimmed(value), "git@"@),
        query matches RepoQuery::NormalizeUrl(url) ==> url@ == trimmed(value),
        query matches RepoQuery::LookUpPath(path) ==> path@ == trimmed(value),
{
    reveal_strlit("://");
    reveal_strlit("ssh://");
    let s = trimmed(value);
    if begins_with(s, "ssh://"@) {
        assert(s.subrange(0, 6) == "ssh://"@);
        assert(s.subrange(3, 6) =~= "://"@) by {
            assert(s.subrange(0, 6)[3] == s[3]);
            assert(s.subrange(0, 6)[4] == s[4]);
            assert(s.subrange(0, 6)[5] == s[5]);
        }
        assert(occurs_at(s, "://"@, 3));
    }
}

/// The address that was found is the one that is selected; where none was, the value that selects
/// it is named as it was given, and a blank value is refused whatever was found.
pub proof fn lemma_found_is_selected(value: Seq<char>, found: String)
    ensures
        trimmed(value).len() > 0 ==> {
            &&& selected_repo(value, RepoReply::Normalized(Ok(found))) == Ok::<Seq<char>, Seq<char>>(
                found@,
            )
            &&& selected_repo(value, RepoReply::Normalized(Err(found))) == Err::<
                Seq<char>,
                Seq<char>,
            >(found@)
            &&& selected_repo(value, RepoReply::Address(found)) == Ok::<Seq<char>, Seq<char>>(found@)
            &&& selected_repo(value, RepoReply::NoRepository) == Err::<Seq<char>, Seq<char>>(
                "No git repository found at path '"@ + value + "'."@,
            )
            &&& selected_repo(value, RepoReply::NoAddress) == Err::<Seq<char>, Seq<char>>(
                "Failed to resolve repository URL from path '"@ + value + "'."@,
            )
        },
        forall|reply: RepoReply|
            trimmed(value).len() == 0 ==> #[trigger] selected_repo(value, reply) == Err::<
                Seq<char>,
                Seq<char>,
            >("Invalid --repo value: empty string."@),
{
}

} // verus!
