//! Git remote URLs, SCP-like `user@host:path` remotes included.
use vstd::prelude::*;

use std::str::FromStr;

use url::Url;

use crate::chars::{chars_of, string_from_chars};

verus! {

/// `url::Url`, carried through opaquely.
#[verifier::external_type_specification]
#[verifier::external_body]
pub struct ExUrl(url::Url);

/// `Clone for url::Url`, which the derived `Clone` of `RemoteUrl` calls.
/// Nothing is claimed of the copy.
pub assume_specification[ <url::Url as Clone>::clone ](url: &url::Url) -> url::Url;

/// `url::ParseError`, the error of a remote that is not a URL.
#[verifier::external_type_specification]
#[verifier::external_body]
pub struct ExUrlParseError(url::ParseError);

/// The pattern that recognizes the `user@` prefix of an SCP-like remote
/// (`git@host:path`): a non-empty user name without `/`, `@` or `:`, then
/// `@`.
pub open spec fn user_prefix_pattern() -> Seq<char> {
    seq!['^', '[', '^', '/', '@', ':', ']', '+', '@']
}

/// The text starts with a non-empty run of characters other than `/`, `@`
/// and `:`, followed by `@`: what `^[^/@:]+@` matches.
pub open spec fn has_user_prefix(s: Seq<char>) -> bool {
    exists|i: int|
        0 < i < s.len() && s[i] == '@' && forall|j: int|
            0 <= j < i ==> s[j] != '/' && s[j] != '@' && s[j] != ':'
}

/// What compiling `pattern` with `regex::Regex::new` and matching it with
/// `Regex::is_match` against `haystack` gives: `None` where the pattern does
/// not compile.
pub uninterp spec fn regex_match(pattern: Seq<char>, haystack: Seq<char>) -> Option<bool>;

/// `regex::Regex::new(pattern)` followed by `Regex::is_match(haystack)`.
/// Claimed: the result is `regex_match` of the two texts; and, as the regex
/// crate's syntax documentation defines `^`, a negated class `[^...]`, `+` and
/// a literal, the user-prefix pattern compiles and matches exactly the texts
/// of `has_user_prefix`. Regex semantics in general are not restated.
#[verifier::external_body]
fn regex_is_match(pattern: &str, haystack: &str) -> (res: Option<bool>)
    ensures
        res == regex_match(pattern@, haystack@),
        pattern@ == user_prefix_pattern() ==> res == Some(has_user_prefix(haystack@)),
{
    regex::Regex::new(pattern).ok().map(|regex| regex.is_match(haystack))
}

/// What `url::Url::parse` gives for a text: `None` where it fails, else the
/// parsed URL's serialization (`Url::as_str`), scheme (`Url::scheme`), host
/// (`Url::host_str`) and path (`Url::path`).
pub uninterp spec fn url_parse(input: Seq<char>) -> Option<
    (Seq<char>, Seq<char>, Option<Seq<char>>, Seq<char>),
>;

/// The serialization of a URL (`url::Url::as_str`), which is what two URLs
/// are compared by.
pub uninterp spec fn url_serialization(url: url::Url) -> Seq<char>;

/// The serialization, scheme, host and path of a parsed URL.
#[derive(Debug, PartialEq, Eq, Clone)]
pub struct UrlParts {
    pub text: String,
    pub scheme: String,
    pub host: Option<String>,
    pub path: String,
}

/// The view of the parts of a URL.
pub open spec fn url_parts_view(p: UrlParts) -> (Seq<char>, Seq<char>, Option<Seq<char>>, Seq<char>) {
    (
        p.text@,
        p.scheme@,
        match p.host {
            Some(h) => Some(h@),
            None => None,
        },
        p.path@,
    )
}

/// `url::Url::parse`, with the parsed URL's serialization, scheme, host and
/// path read from it by `Url::as_str`, `Url::scheme`, `Url::host_str` and
/// `Url::path`. Claimed: it fails exactly where `url_parse` of the text is
/// `None`, and else the parts are those of `url_parse`, the serialization
/// being that of the `Url` handed back (`url_serialization`). The WHATWG URL rules
/// by which it parses, and which `ParseError` it gives back, are not
/// restated: `Url` and `ParseError` are opaque here.
#[verifier::external_body]
fn parse_url(input: &str) -> (res: Result<(Url, UrlParts), url::ParseError>)
    ensures
        match res {
            Ok((_, parts)) => url_parse(input@) == Some(url_parts_view(parts)),
            Err(_) => url_parse(input@) is None,
        },
        res matches Ok((url, parts)) ==> url_serialization(url) == parts.text@,
{
    Url::parse(input).map(|url| {
        let parts = UrlParts {
            text: url.as_str().to_string(),
            scheme: url.scheme().to_string(),
            host: url.host_str().map(|host| host.to_string()),
            path: url.path().to_string(),
        };
        (url, parts)
    })
}

/// The text with its first `from` replaced by `to` (`str::replacen(from, to,
/// 1)`).
pub open spec fn replace_first(s: Seq<char>, from: char, to: Seq<char>) -> Seq<char>
    decreases s.len(),
{
    if s.len() == 0 {
        s
    } else if s[0] == from {
        to + s.skip(1)
    } else {
        seq![s[0]] + replace_first(s.skip(1), from, to)
    }
}

/// `ssh://`.
pub open spec fn ssh_prefix() -> Seq<char> {
    seq!['s', 's', 'h', ':', '/', '/']
}

/// The URL text of a remote: an SCP-like remote `user@host:path` becomes
/// `ssh://user@host/path`; any other text stays as it is.
pub open spec fn spec_remote_url_text(input: Seq<char>, user_prefix: bool) -> Seq<char> {
    if user_prefix {
        ssh_prefix() + replace_first(input, ':', seq!['/'])
    } else {
        input
    }
}

/// The URL text of a remote, given whether it starts with a `user@` prefix:
/// then `ssh://` is put in front and its first `:` becomes `/`.
pub fn remote_url_text(input: &str, user_prefix: bool) -> (res: String)
    ensures
        res@ == spec_remote_url_text(input@, user_prefix),
{
    if !user_prefix {
        return string_from_chars(&chars_of(input));
    }
    let chars = chars_of(input);
    let mut out: Vec<char> = Vec::new();
    out.push('s');
    out.push('s');
    out.push('h');
    out.push(':');
    out.push('/');
    out.push('/');
    let mut replaced = false;
    let ghost s = chars@;
    assert(s.skip(0) == s);
    for i in 0..chars.len()
        invariant
            s == chars@,
            !replaced ==> out@ + replace_first(s.skip(i as int), ':', seq!['/']) == ssh_prefix()
                + replace_first(s, ':', seq!['/']),
            replaced ==> out@ + s.skip(i as int) == ssh_prefix() + replace_first(
                s,
                ':',
                seq!['/'],
            ),
    {
        let c = chars[i];
        let ghost before = out@;
        assert(s.skip(i as int).skip(1) == s.skip(i + 1));
        assert(s.skip(i as int)[0] == c);
        if !replaced && c == ':' {
            out.push('/');
            replaced = true;
            assert(before + replace_first(s.skip(i as int), ':', seq!['/']) =~= out@ + s.skip(
                i + 1,
            ));
        } else {
            out.push(c);
            if replaced {
                assert(before + s.skip(i as int) =~= out@ + s.skip(i + 1));
            } else {
                assert(before + replace_first(s.skip(i as int), ':', seq!['/']) =~= out@
                    + replace_first(s.skip(i + 1), ':', seq!['/']));
            }
        }
    }
    assert(s.skip(chars.len() as int).len() == 0);
    assert(out@ + s.skip(chars.len() as int) =~= out@);
    string_from_chars(&out)
}

/// The URL to a Git remote, with its serialization, scheme, host and path.
#[derive(Debug, PartialEq, Eq, Clone)]
pub struct RemoteUrl(pub Url, pub UrlParts);

/// What parsing a remote gives: `None` where the URL text of the remote does
/// not parse, else the parts of the parsed URL.
pub open spec fn spec_parse_remote(input: Seq<char>) -> Option<
    (Seq<char>, Seq<char>, Option<Seq<char>>, Seq<char>),
> {
    url_parse(spec_remote_url_text(input, has_user_prefix(input)))
}

impl RemoteUrl {
    /// Parses a Git remote (`RemoteUrl::from_str`): an SCP-like remote
    /// `user@host:path` is read as `ssh://user@host/path`; anything else is
    /// parsed as a URL as it is.
    pub fn parse_remote(input: &str) -> (res: Result<RemoteUrl, url::ParseError>)
        ensures
            match res {
                Ok(remote) => spec_parse_remote(input@) == Some(url_parts_view(remote.1)),
                Err(_) => spec_parse_remote(input@) is None,
            },
            res matches Ok(remote) ==> url_serialization(remote.0) == remote.1.text@,
    {
        let pattern = "^[^/@:]+@";
        proof {
            reveal_strlit("^[^/@:]+@");
            assert(pattern@ =~= user_prefix_pattern());
        }
        let user_prefix = match regex_is_match(pattern, input) {
            Some(matched) => matched,
            None => false,
        };
        let text = remote_url_text(input, user_prefix);
        match parse_url(text.as_str()) {
            Ok((url, parts)) => Ok(RemoteUrl(url, parts)),
            Err(err) => Err(err),
        }
    }
}

impl FromStr for RemoteUrl {
    type Err = url::ParseError;

    fn from_str(input: &str) -> (res: Result<RemoteUrl, url::ParseError>)
        ensures
            match res {
                Ok(remote) => spec_parse_remote(input@) == Some(url_parts_view(remote.1)),
                Err(_) => spec_parse_remote(input@) is None,
            },
            res matches Ok(remote) ==> url_serialization(remote.0) == remote.1.text@,
    {
        RemoteUrl::parse_remote(input)
    }
}

impl std::ops::Deref for RemoteUrl {
    type Target = Url;

    fn deref(&self) -> (res: &Url)
        ensures
            *res == self.0,
    {
        &self.0
    }
}

} // verus!
