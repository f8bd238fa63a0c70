use vstd::prelude::*;

use crate::browser::Browser;
use crate::cookie::{
    any_host_matches, header_text, host_matches, host_texts, keep_cookies, lemma_keep_cookies,
    lemma_keep_cookies_contains, lemma_keep_cookies_len, netscape_text, CookieJar, CookieView,
};
use crate::text::str_eq;

verus! {

/// An output format for exported cookies.
#[derive(Debug, Clone, Copy, PartialEq, Eq, Structural)]
pub enum Format {
    /// Netscape cookies.txt (curl, wget, yt-dlp).
    Netscape,
    /// JSON array.
    Json,
    /// Cookie header value (`k=v; k2=v2`).
    Header,
}

/// Whether some domain argument is `word`.
pub open spec fn names_word(domains: Seq<String>, word: Seq<char>) -> bool {
    exists|i: int| 0 <= i < domains.len() && #[trigger] domains[i]@ == word
}

/// Whether the export arguments ask for every cookie: they are exactly `all`.
pub open spec fn asks_for_all(domains: Seq<String>) -> bool {
    domains.len() == 1 && domains[0]@ == "all"@
}

/// Whether export arguments are accepted, and then whether they ask for every
/// cookie; otherwise the message they are refused with.
pub open spec fn spec_check_export(domains: Seq<String>, format: Format) -> Result<bool, Seq<char>> {
    if domains.len() == 0 {
        Err("missing domain; pass one or more domains, or `all`"@)
    } else if names_word(domains, "list"@) {
        Err("`list` is a command and cannot be combined with export arguments"@)
    } else if !asks_for_all(domains) && names_word(domains, "all"@) {
        Err("`all` cannot be combined with domains"@)
    } else if format == Format::Header && (asks_for_all(domains) || domains.len() != 1) {
        Err("header format requires exactly one domain"@)
    } else {
        Ok(asks_for_all(domains))
    }
}

/// Whether some domain argument is `word`.
fn has_word(domains: &[String], word: &str) -> (r: bool)
    ensures
        r == names_word(domains@, word@),
{
    let mut i: usize = 0;
    while i < domains.len()
        invariant
            i <= domains@.len(),
            forall|j: int| 0 <= j < i ==> domains@[j]@ != word@,
        decreases domains@.len() - i,
    {
        if str_eq(domains[i].as_str(), word) {
            return true;
        }
        i = i + 1;
    }
    false
}

/// Checks the domain arguments of an export against the output format; on
/// success tells whether they ask for every cookie (`all`).
pub fn check_export(domains: &[String], format: Format) -> (r: Result<bool, String>)
    ensures
        match spec_check_export(domains@, format) {
            Ok(all) => r == Ok::<bool, String>(all),
            Err(m) => r is Err && r->Err_0@ == m,
        },
{
    if domains.len() == 0 {
        return Err(String::from_str("missing domain; pass one or more domains, or `all`"));
    }
    if has_word(domains, "list") {
        return Err(String::from_str("`list` is a command and cannot be combined with export arguments"));
    }
    let all = domains.len() == 1 && str_eq(domains[0].as_str(), "all");
    if !all && has_word(domains, "all") {
        return Err(String::from_str("`all` cannot be combined with domains"));
    }
    if format == Format::Header && (all || domains.len() != 1) {
        return Err(String::from_str("header format requires exactly one domain"));
    }
    Ok(all)
}

/// The browser an export reads when none is given: Chrome.
pub fn export_browser(browser: Option<Browser>) -> (b: Browser)
    ensures
        b == match browser {
            Some(x) => x,
            None => Browser::Chrome,
        },
{
    match browser {
        Some(b) => b,
        None => Browser::Chrome,
    }
}

} // verus!

verus! {

/// Domains are accepted for export: any number of them (at least one) with
/// the cookies.txt or JSON format, exactly one with the header format, as
/// long as none is `list` or `all`; then they do not ask for every cookie.
/// `all` alone is accepted with the cookies.txt and JSON formats, and asks
/// for every cookie.
pub proof fn lemma_domains_accepted(domains: Seq<String>, format: Format)
    ensures
        domains.len() >= 1 && (format != Format::Header || domains.len() == 1) && (forall|i: int|
            0 <= i < domains.len() ==> (#[trigger] domains[i])@ != "list"@ && domains[i]@ != "all"@)
            ==> spec_check_export(domains, format) == Ok::<bool, Seq<char>>(false),
        domains.len() == 1 && domains[0]@ == "all"@ && format != Format::Header
            ==> spec_check_export(domains, format) == Ok::<bool, Seq<char>>(true),
{
    if domains.len() == 1 && domains[0]@ == "all"@ {
        reveal_strlit("all");
        reveal_strlit("list");
        if names_word(domains, "list"@) {
            let i = choose|i: int| 0 <= i < domains.len() && #[trigger] domains[i]@ == "list"@;
            assert(domains[i]@ == "all"@);
            assert("all"@[0] != "list"@[0]);
        }
    }
}

/// Export arguments accepted with the header format name exactly one domain,
/// which is not `all`; accepted `all` stands alone.
pub proof fn lemma_accepted_export(domains: Seq<String>, format: Format)
    ensures
        spec_check_export(domains, format) is Ok && format == Format::Header ==> domains.len() == 1
            && domains[0]@ != "all"@,
        spec_check_export(domains, format) == Ok::<bool, Seq<char>>(true) ==> domains.len() == 1,
        spec_check_export(domains, format) is Ok ==> !names_word(domains, "list"@),
{
}

} // verus!

verus! {

/// The texts of domain arguments.
pub open spec fn domain_texts(domains: Seq<String>) -> Seq<Seq<char>> {
    domains.map_values(|d: String| d@)
}

/// The cookies an export writes: every cookie for `all`, else those of the
/// given domains and their subdomains.
pub open spec fn spec_exported(jar: Seq<CookieView>, domains: Seq<String>, all: bool) -> Seq<CookieView> {
    if all {
        jar
    } else {
        keep_cookies(jar, |c: CookieView| any_host_matches(c.domain, domain_texts(domains)))
    }
}

/// Picks the cookies an export writes: every cookie when `all`, else those
/// of the given domains.
pub fn select_cookies(jar: CookieJar, domains: &[String], all: bool) -> (r: CookieJar)
    ensures
        r@ == spec_exported(jar@, domains@, all),
{
    if all {
        return jar;
    }
    let mut hosts: Vec<&str> = Vec::new();
    let mut i: usize = 0;
    while i < domains.len()
        invariant
            i <= domains@.len(),
            hosts@.len() == i,
            forall|j: int| 0 <= j < i ==> #[trigger] hosts@[j]@ == domains@[j]@,
        decreases domains@.len() - i,
    {
        hosts.push(domains[i].as_str());
        i = i + 1;
    }
    assert(host_texts(hosts@) =~= domain_texts(domains@));
    jar.domains(hosts.as_slice())
}

/// The text an export writes in `format`: cookies.txt or a `Cookie:` header;
/// `None` for JSON, which the caller writes.
pub fn format_jar(jar: &CookieJar, format: Format) -> (r: Option<String>)
    ensures
        match format {
            Format::Netscape => r matches Some(s) && s@ == netscape_text(jar@),
            Format::Header => r matches Some(s) && s@ == header_text(jar@),
            Format::Json => r is None,
        },
{
    match format {
        Format::Netscape => Some(jar.to_netscape()),
        Format::Header => Some(jar.to_header()),
        Format::Json => None,
    }
}


/// An export of `all` writes every cookie of the jar; otherwise it writes, in
/// jar order, exactly the cookies stored for one of the given domains or a
/// subdomain of it.
pub proof fn lemma_exported_cookies(jar: Seq<CookieView>, domains: Seq<String>, all: bool)
    ensures
        all ==> spec_exported(jar, domains, all) == jar,
        !all ==> forall|i: int| 0 <= i < spec_exported(jar, domains, all).len() ==> exists|k: int|
            0 <= k < domains.len() && host_matches((#[trigger] spec_exported(jar, domains, all)[i]).domain, domains[k]@),
        !all ==> forall|i: int, k: int| 0 <= i < jar.len() && 0 <= k < domains.len() && host_matches((#[trigger] jar[i]).domain, #[trigger] domains[k]@)
            ==> spec_exported(jar, domains, all).contains(jar[i]),
        spec_exported(jar, domains, all).len() <= jar.len(),
{
    let pred = |c: CookieView| any_host_matches(c.domain, domain_texts(domains));
    lemma_keep_cookies(jar, pred);
    lemma_keep_cookies_len(jar, pred);
    if !all {
        assert forall|i: int| 0 <= i < spec_exported(jar, domains, all).len() implies exists|k: int|
            0 <= k < domains.len() && host_matches((#[trigger] spec_exported(jar, domains, all)[i]).domain, domains[k]@) by {
            let c = spec_exported(jar, domains, all)[i];
            assert(pred(c));
            let k = choose|k: int| 0 <= k < domain_texts(domains).len() && host_matches(c.domain, #[trigger] domain_texts(domains)[k]);
            assert(domain_texts(domains)[k] == domains[k]@);
        }
        assert forall|i: int, k: int| 0 <= i < jar.len() && 0 <= k < domains.len() && host_matches((#[trigger] jar[i]).domain, #[trigger] domains[k]@)
            implies spec_exported(jar, domains, all).contains(jar[i]) by {
            assert(domain_texts(domains)[k] == domains[k]@);
            assert(pred(jar[i]));
            lemma_keep_cookies_contains(jar, pred, i);
        }
    }
}

} // verus!
