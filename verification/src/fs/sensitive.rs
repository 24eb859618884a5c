//! Files whose content is not shown as it is.

use vstd::prelude::*;
use vstd::string::*;
use crate::path::{extension, extension_of, file_name, file_name_of};
use crate::patterns::{lowercase, lowercase_of};
use crate::text::chars::{same, to_chars};
use crate::text::search::{begins, contains, has, occurs_at, starts_with};
use crate::text::split::opt_view;

verus! {

/// A file name in lower case, with its extension, belongs to a file that
/// holds secrets.
pub open spec fn sensitive_name(lower: Seq<char>, ext: Option<Seq<char>>) -> bool {
    ||| starts_with(lower, ".env"@)
    ||| lower == "credentials"@
    ||| lower == "creds"@
    ||| ext == Some("pem"@)
    ||| ext == Some("key"@)
    ||| ext == Some("pfx"@)
    ||| ext == Some("p12"@)
    ||| contains(lower, "secret"@)
    ||| contains(lower, "password"@)
    ||| contains(lower, "token"@)
}

/// The path leads to a file that holds secrets.
pub open spec fn sensitive(path: Seq<char>) -> bool {
    match file_name_of(path) {
        None => false,
        Some(name) => sensitive_name(lowercase_of(name), extension_of(path)),
    }
}

/// The content of a file as it may be shown; `hidden` is the content with its
/// secrets hidden.
pub open spec fn shown_content(
    path: Seq<char>,
    content: Seq<char>,
    hidden: Seq<char>,
) -> Seq<char> {
    if sensitive(path) {
        hidden
    } else {
        content
    }
}

/// Whether a file name in lower case, with its extension, belongs to a file
/// that holds secrets.
pub fn is_sensitive_name(lower: &str, ext: Option<String>) -> (r: bool)
    ensures
        r == sensitive_name(lower@, opt_view(ext)),
{
    let chars = to_chars(lower);
    let s = chars.as_slice();
    if begins(s, to_chars(".env").as_slice()) || same(lower, "credentials") || same(
        lower,
        "creds",
    ) {
        return true;
    }
    if let Some(e) = ext {
        let e = e.as_str();
        if same(e, "pem") || same(e, "key") || same(e, "pfx") || same(e, "p12") {
            return true;
        }
    }
    has(s, to_chars("secret").as_slice()) || has(s, to_chars("password").as_slice()) || has(
        s,
        to_chars("token").as_slice(),
    )
}

/// Whether the path leads to a file that holds secrets.
pub fn is_sensitive_path(path: &str) -> (r: bool)
    ensures
        r == sensitive(path@),
{
    match file_name(path) {
        None => false,
        Some(name) => {
            let lower = lowercase(name.as_str());
            is_sensitive_name(lower.as_str(), extension(path))
        },
    }
}

/// The content of a file as it may be shown; `hidden` is the content with its
/// secrets hidden.
pub fn show_content(path: &str, content: String, hidden: String) -> (r: String)
    ensures
        r@ == shown_content(path@, content@, hidden@),
{
    if is_sensitive_path(path) {
        hidden
    } else {
        content
    }
}

/// A file holds secrets exactly where its name, whatever its case, begins with
/// `.env`, is `credentials` or `creds`, speaks of a secret, a password or a
/// token, or where its extension is that of a key.
pub proof fn names_of_files_with_secrets(lower: &str, ext: Option<String>, r: bool)
    requires
        call_ensures(is_sensitive_name, (lower, ext), r),
    ensures
        lower@.len() >= 4 && lower@.take(4) == ".env"@ ==> r,
        lower@ == "credentials"@ || lower@ == "creds"@ ==> r,
        ext is Some && (ext->0@ == "pem"@ || ext->0@ == "key"@ || ext->0@ == "pfx"@ || ext->0@
            == "p12"@) ==> r,
        forall|i: int|
            0 <= i <= lower@.len() - 6 && #[trigger] lower@.subrange(i, i + 6) == "secret"@ ==> r,
        forall|i: int|
            0 <= i <= lower@.len() - 8 && #[trigger] lower@.subrange(i, i + 8) == "password"@ ==> r,
        forall|i: int|
            0 <= i <= lower@.len() - 5 && #[trigger] lower@.subrange(i, i + 5) == "token"@ ==> r,
        r && !(ext is Some && (ext->0@ == "pem"@ || ext->0@ == "key"@ || ext->0@ == "pfx"@
            || ext->0@ == "p12"@)) && (lower@.len() < 4 || lower@.take(4) != ".env"@) && lower@
            != "credentials"@ && lower@ != "creds"@ ==> (exists|i: int, n: int|
            0 <= i && i + n <= lower@.len() && {
                let w = #[trigger] lower@.subrange(i, i + n);
                w == "secret"@ || w == "password"@ || w == "token"@
            }),
{
    reveal_strlit(".env");
    reveal_strlit("secret");
    reveal_strlit("password");
    reveal_strlit("token");
    let s = lower@;
    if s.len() >= 4 {
        assert(s.subrange(0, 4) == s.take(4));
    }
    assert forall|i: int|
        0 <= i <= s.len() - 6 && #[trigger] s.subrange(i, i + 6) == "secret"@ implies r by {
        assert(occurs_at(s, "secret"@, i));
    }
    assert forall|i: int|
        0 <= i <= s.len() - 8 && #[trigger] s.subrange(i, i + 8) == "password"@ implies r by {
        assert(occurs_at(s, "password"@, i));
    }
    assert forall|i: int|
        0 <= i <= s.len() - 5 && #[trigger] s.subrange(i, i + 5) == "token"@ implies r by {
        assert(occurs_at(s, "token"@, i));
    }
    if contains(s, "secret"@) {
        let i = choose|i: int| occurs_at(s, "secret"@, i);
        assert(s.subrange(i, i + 6) == "secret"@);
    }
    if contains(s, "password"@) {
        let i = choose|i: int| occurs_at(s, "password"@, i);
        assert(s.subrange(i, i + 8) == "password"@);
    }
    if contains(s, "token"@) {
        let i = choose|i: int| occurs_at(s, "token"@, i);
        assert(s.subrange(i, i + 5) == "token"@);
    }
}

/// Whether a file holds secrets is told by the last component of its path, in
/// lower case, and by its extension.
pub proof fn last_component_tells(
    path: &str,
    name: Option<String>,
    lower: &str,
    ext: Option<String>,
    by_name: bool,
    r: bool,
)
    requires
        call_ensures(is_sensitive_path, (path,), r),
        call_ensures(file_name, (path,), name),
        call_ensures(extension, (path,), ext),
        name is Some ==> lower@ == lowercase_of(name->0@),
        call_ensures(is_sensitive_name, (lower, ext), by_name),
    ensures
        r == (name is Some && by_name),
{
}

/// The content of a file that holds secrets is never shown as it is.
pub proof fn secrets_are_shown_hidden(
    path: &str,
    content: String,
    hidden: String,
    secret: bool,
    r: String,
)
    requires
        call_ensures(is_sensitive_path, (path,), secret),
        call_ensures(show_content, (path, content, hidden), r),
    ensures
        secret ==> r@ == hidden@,
        !secret ==> r@ == content@,
{
}

} // verus!
