use vstd::prelude::*;

use crate::text::{decimal, decimal_text, str_eq};

verus! {

/// One browser cookie.
#[derive(Debug, PartialEq, Eq)]
pub struct Cookie {
    /// The domain the cookie is stored for (a leading `.` covers subdomains).
    pub domain: String,
    pub name: String,
    pub value: String,
    pub path: String,
    /// Expiry in unix seconds; 0 for a session cookie.
    pub expires: i64,
    pub secure: bool,
    pub http_only: bool,
}

/// The mathematical content of a cookie.
pub struct CookieView {
    pub domain: Seq<char>,
    pub name: Seq<char>,
    pub value: Seq<char>,
    pub path: Seq<char>,
    pub expires: int,
    pub secure: bool,
    pub http_only: bool,
}

impl View for Cookie {
    type V = CookieView;

    open spec fn view(&self) -> CookieView {
        CookieView {
            domain: self.domain@,
            name: self.name@,
            value: self.value@,
            path: self.path@,
            expires: self.expires as int,
            secure: self.secure,
            http_only: self.http_only,
        }
    }
}

/// The views of a sequence of cookies.
pub open spec fn cookie_views(s: Seq<Cookie>) -> Seq<CookieView> {
    s.map_values(|c: Cookie| c@)
}

} // verus!

verus! {

impl Clone for Cookie {
    fn clone(&self) -> (r: Self)
        ensures
            r@ == self@,
    {
        Cookie {
            domain: self.domain.clone(),
            name: self.name.clone(),
            value: self.value.clone(),
            path: self.path.clone(),
            expires: self.expires,
            secure: self.secure,
            http_only: self.http_only,
        }
    }
}

/// A cookie domain without its leading `.`.
pub open spec fn bare_domain(d: Seq<char>) -> Seq<char> {
    if d.len() > 0 && d[0] == '.' {
        d.drop_first()
    } else {
        d
    }
}

/// Whether a cookie stored for `domain` belongs to `host`: its domain, without
/// a leading `.`, is the host or a subdomain of it.
pub open spec fn host_matches(domain: Seq<char>, host: Seq<char>) -> bool {
    let d = bare_domain(domain);
    d == host || (d.len() > host.len() && d.subrange(d.len() - host.len() - 1, d.len() as int) == seq!['.'] + host)
}

/// The cookies of `cs` that satisfy `pred`, in order.
pub open spec fn keep_cookies(cs: Seq<CookieView>, pred: spec_fn(CookieView) -> bool) -> Seq<CookieView>
    decreases cs.len(),
{
    if cs.len() == 0 {
        Seq::empty()
    } else {
        let prev = keep_cookies(cs.drop_last(), pred);
        if pred(cs.last()) {
            prev.push(cs.last())
        } else {
            prev
        }
    }
}

/// Whether a cookie stored for `domain` belongs to one of `hosts`.
pub open spec fn any_host_matches(domain: Seq<char>, hosts: Seq<Seq<char>>) -> bool {
    exists|i: int| 0 <= i < hosts.len() && host_matches(domain, #[trigger] hosts[i])
}

/// The texts of host names.
pub open spec fn host_texts(hosts: Seq<&str>) -> Seq<Seq<char>> {
    hosts.map_values(|h: &str| h@)
}

/// `name=value` pairs joined by `; `, as a `Cookie:` header carries them.
pub open spec fn header_text(cs: Seq<CookieView>) -> Seq<char>
    decreases cs.len(),
{
    if cs.len() == 0 {
        Seq::empty()
    } else if cs.len() == 1 {
        cs[0].name + "="@ + cs[0].value
    } else {
        header_text(cs.drop_last()) + "; "@ + cs.last().name + "="@ + cs.last().value
    }
}

/// `TRUE` or `FALSE`, as cookies.txt writes flags.
pub open spec fn flag_text(b: bool) -> Seq<char> {
    if b {
        "TRUE"@
    } else {
        "FALSE"@
    }
}

/// The start of a cookies.txt line: domain (prefixed `#HttpOnly_` for
/// HTTP-only cookies), whether subdomains match, and path.
pub open spec fn line_head(c: CookieView) -> Seq<char> {
    (if c.http_only {
        "#HttpOnly_"@
    } else {
        Seq::empty()
    }) + c.domain + "\t"@ + flag_text(c.domain.len() > 0 && c.domain[0] == '.') + "\t"@ + c.path + "\t"@
}

/// The middle of a cookies.txt line: secure flag and expiry.
pub open spec fn line_middle(c: CookieView) -> Seq<char> {
    flag_text(c.secure) + "\t"@ + decimal_text(c.expires) + "\t"@
}

/// The end of a cookies.txt line: name and value.
pub open spec fn line_tail(c: CookieView) -> Seq<char> {
    c.name + "\t"@ + c.value + "\n"@
}

/// One cookies.txt line: domain (prefixed `#HttpOnly_` for HTTP-only cookies),
/// whether subdomains match, path, secure, expiry, name and value, separated by tabs.
pub open spec fn netscape_line(c: CookieView) -> Seq<char> {
    line_head(c) + line_middle(c) + line_tail(c)
}

/// The cookie lines of a cookies.txt file, in order.
pub open spec fn netscape_lines(cs: Seq<CookieView>) -> Seq<char>
    decreases cs.len(),
{
    if cs.len() == 0 {
        Seq::empty()
    } else {
        netscape_lines(cs.drop_last()) + netscape_line(cs.last())
    }
}

/// A Netscape cookies.txt file holding `cs`.
pub open spec fn netscape_text(cs: Seq<CookieView>) -> Seq<char> {
    "# Netscape HTTP Cookie File\n"@ + netscape_lines(cs)
}

/// Whether a cookie stored for `domain` belongs to `host`.
pub fn domain_matches(domain: &str, host: &str) -> (r: bool)
    ensures
        r == host_matches(domain@, host@),
{
    let n = domain.unicode_len();
    let d: &str = if n > 0 && domain.get_char(0) == '.' {
        domain.substring_char(1, n)
    } else {
        domain
    };
    assert(d@ == bare_domain(domain@));
    if str_eq(d, host) {
        return true;
    }
    let dn = d.unicode_len();
    let hn = host.unicode_len();
    if dn <= hn {
        return false;
    }
    let start = dn - hn - 1;
    if d.get_char(start) != '.' {
        assert(d@.subrange(start as int, dn as int)[0] != (seq!['.'] + host@)[0]);
        return false;
    }
    let tail = d.substring_char(start + 1, dn);
    let same = str_eq(tail, host);
    proof {
        let s = d@.subrange(start as int, dn as int);
        if same {
            assert(s =~= seq!['.'] + host@);
        } else if s == seq!['.'] + host@ {
            assert(tail@ =~= s.drop_first());
            assert((seq!['.'] + host@).drop_first() =~= host@);
        }
    }
    same
}

/// Appends `flag_text(b)`.
fn push_flag(s: &mut String, b: bool)
    ensures
        final(s)@ == old(s)@ + flag_text(b),
{
    if b {
        s.append("TRUE");
    } else {
        s.append("FALSE");
    }
}

/// Appends the start of the cookies.txt line of `c`.
fn push_line_head(s: &mut String, c: &Cookie)
    ensures
        final(s)@ == old(s)@ + line_head(c@),
{
    let ghost s0 = s@;
    if c.http_only {
        s.append("#HttpOnly_");
    }
    s.append(c.domain.as_str());
    s.append("\t");
    let dn = c.domain.unicode_len();
    let sub = dn > 0 && c.domain.as_str().get_char(0) == '.';
    push_flag(s, sub);
    s.append("\t");
    s.append(c.path.as_str());
    s.append("\t");
    assert(s@ =~= s0 + line_head(c@));
}

/// Appends the cookies.txt line of `c`.
fn push_netscape_line(s: &mut String, c: &Cookie)
    ensures
        final(s)@ == old(s)@ + netscape_line(c@),
{
    let ghost s0 = s@;
    push_line_head(s, c);
    let ghost s1 = s@;
    push_flag(s, c.secure);
    s.append("\t");
    let e = decimal(c.expires);
    s.append(e.as_str());
    s.append("\t");
    assert(s@ =~= s1 + line_middle(c@));
    let ghost s2 = s@;
    s.append(c.name.as_str());
    s.append("\t");
    s.append(c.value.as_str());
    s.append("\n");
    assert(s@ =~= s2 + line_tail(c@));
    assert(s@ =~= s0 + netscape_line(c@));
}

/// The cookies read from one profile or browser.
#[derive(Debug)]
pub struct CookieJar {
    cookies: Vec<Cookie>,
}

impl View for CookieJar {
    type V = Seq<CookieView>;

    closed spec fn view(&self) -> Seq<CookieView> {
        cookie_views(self.cookies@)
    }
}

impl CookieJar {
    /// A jar holding `cookies`, in order.
    pub fn new(cookies: Vec<Cookie>) -> (j: CookieJar)
        ensures
            j@ == cookie_views(cookies@),
    {
        CookieJar { cookies }
    }

    /// The number of cookies in the jar.
    pub fn len(&self) -> (n: usize)
        ensures
            n == self@.len(),
    {
        self.cookies.len()
    }

    /// Whether the jar holds no cookie.
    pub fn is_empty(&self) -> (b: bool)
        ensures
            b == (self@.len() == 0),
    {
        self.cookies.len() == 0
    }

    /// The cookies of the jar, in order.
    pub fn cookies(&self) -> (s: &[Cookie])
        ensures
            cookie_views(s@) == self@,
    {
        self.cookies.as_slice()
    }

    /// The cookies that belong to `host` or one of its subdomains.
    pub fn domain(&self, host: &str) -> (j: CookieJar)
        ensures
            j@ == keep_cookies(self@, |c: CookieView| host_matches(c.domain, host@)),
    {
        let ghost pred = |c: CookieView| host_matches(c.domain, host@);
        let ghost all = self@;
        let mut out: Vec<Cookie> = Vec::new();
        let mut i: usize = 0;
        assert(all.take(0) =~= Seq::<CookieView>::empty());
        while i < self.cookies.len()
            invariant
                i <= self.cookies@.len(),
                all == cookie_views(self.cookies@),
                pred == (|c: CookieView| host_matches(c.domain, host@)),
                cookie_views(out@) == keep_cookies(all.take(i as int), pred),
            decreases self.cookies@.len() - i,
        {
            assert(all.take(i + 1).drop_last() == all.take(i as int));
            assert(all.take(i + 1).last() == self.cookies@[i as int]@);
            if domain_matches(self.cookies[i].domain.as_str(), host) {
                let c = self.cookies[i].clone();
                let ghost prev = out@;
                out.push(c);
                assert(cookie_views(out@) =~= cookie_views(prev).push(c@));
            }
            i = i + 1;
        }
        assert(all.take(self.cookies@.len() as int) == all);
        CookieJar { cookies: out }
    }

    /// The cookies that belong to one of `hosts` or their subdomains.
    pub fn domains(&self, hosts: &[&str]) -> (j: CookieJar)
        ensures
            j@ == keep_cookies(self@, |c: CookieView| any_host_matches(c.domain, host_texts(hosts@))),
    {
        let ghost pred = |c: CookieView| any_host_matches(c.domain, host_texts(hosts@));
        let ghost all = self@;
        let mut out: Vec<Cookie> = Vec::new();
        let mut i: usize = 0;
        assert(all.take(0) =~= Seq::<CookieView>::empty());
        while i < self.cookies.len()
            invariant
                i <= self.cookies@.len(),
                all == cookie_views(self.cookies@),
                pred == (|c: CookieView| any_host_matches(c.domain, host_texts(hosts@))),
                cookie_views(out@) == keep_cookies(all.take(i as int), pred),
            decreases self.cookies@.len() - i,
        {
            assert(all.take(i + 1).drop_last() == all.take(i as int));
            assert(all.take(i + 1).last() == self.cookies@[i as int]@);
            let mut hit = false;
            let mut k: usize = 0;
            while k < hosts.len() && !hit
                invariant
                    k <= hosts@.len(),
                    i < self.cookies@.len(),
                    hit ==> any_host_matches(self.cookies@[i as int].domain@, host_texts(hosts@)),
                    !hit ==> forall|m: int| 0 <= m < k ==> !host_matches(self.cookies@[i as int].domain@, #[trigger] hosts@[m]@),
                decreases hosts@.len() - k + if hit { 0int } else { 1 },
            {
                if domain_matches(self.cookies[i].domain.as_str(), hosts[k]) {
                    assert(host_texts(hosts@)[k as int] == hosts@[k as int]@);
                    hit = true;
                } else {
                    k = k + 1;
                }
            }
            proof {
                if !hit {
                    assert forall|m: int| 0 <= m < host_texts(hosts@).len() implies !host_matches(
                        self.cookies@[i as int].domain@,
                        #[trigger] host_texts(hosts@)[m],
                    ) by {
                        assert(host_texts(hosts@)[m] == hosts@[m]@);
                    }
                }
            }
            if hit {
                let c = self.cookies[i].clone();
                let ghost prev = out@;
                out.push(c);
                assert(cookie_views(out@) =~= cookie_views(prev).push(c@));
            }
            i = i + 1;
        }
        assert(all.take(self.cookies@.len() as int) == all);
        CookieJar { cookies: out }
    }

    /// The value of a `Cookie:` header carrying every cookie of the jar.
    pub fn to_header(&self) -> (s: String)
        ensures
            s@ == header_text(self@),
    {
        let ghost all = self@;
        let mut s = String::new();
        let mut i: usize = 0;
        assert(all.take(0) =~= Seq::<CookieView>::empty());
        while i < self.cookies.len()
            invariant
                i <= self.cookies@.len(),
                all == cookie_views(self.cookies@),
                s@ == header_text(all.take(i as int)),
            decreases self.cookies@.len() - i,
        {
            assert(all.take(i + 1).drop_last() == all.take(i as int));
            assert(all.take(i + 1).last() == self.cookies@[i as int]@);
            if i > 0 {
                s.append("; ");
            }
            s.append(self.cookies[i].name.as_str());
            s.append("=");
            s.append(self.cookies[i].value.as_str());
            proof {
                if i == 0 {
                    assert(all.take(1)[0] == self.cookies@[0]@);
                }
            }
            i = i + 1;
        }
        assert(all.take(self.cookies@.len() as int) == all);
        s
    }

    /// The jar as a Netscape cookies.txt file (curl, wget, yt-dlp).
    pub fn to_netscape(&self) -> (s: String)
        ensures
            s@ == netscape_text(self@),
    {
        let ghost all = self@;
        let mut s = String::from_str("# Netscape HTTP Cookie File\n");
        let ghost head = s@;
        let mut i: usize = 0;
        assert(all.take(0) =~= Seq::<CookieView>::empty());
        while i < self.cookies.len()
            invariant
                i <= self.cookies@.len(),
                all == cookie_views(self.cookies@),
                head == "# Netscape HTTP Cookie File\n"@,
                s@ == head + netscape_lines(all.take(i as int)),
            decreases self.cookies@.len() - i,
        {
            assert(all.take(i + 1).drop_last() == all.take(i as int));
            assert(all.take(i + 1).last() == self.cookies@[i as int]@);
            push_netscape_line(&mut s, &self.cookies[i]);
            assert(netscape_lines(all.take(i + 1)) == netscape_lines(all.take(i as int)) + netscape_line(all[i as int]));
            assert(s@ =~= head + netscape_lines(all.take(i + 1)));
            i = i + 1;
        }
        assert(all.take(self.cookies@.len() as int) == all);
        s
    }
}

} // verus!

verus! {

/// Every cookie that `keep_cookies` retains satisfies the predicate, and
/// filtering twice by the same predicate changes nothing more.
pub proof fn lemma_keep_cookies(cs: Seq<CookieView>, pred: spec_fn(CookieView) -> bool)
    ensures
        forall|i: int| 0 <= i < keep_cookies(cs, pred).len() ==> pred(#[trigger] keep_cookies(cs, pred)[i]),
        keep_cookies(keep_cookies(cs, pred), pred) == keep_cookies(cs, pred),
    decreases cs.len(),
{
    if cs.len() > 0 {
        lemma_keep_cookies(cs.drop_last(), pred);
        let prev = keep_cookies(cs.drop_last(), pred);
        if pred(cs.last()) {
            let k = prev.push(cs.last());
            assert(k.drop_last() =~= prev);
        }
    }
}

/// Selecting the cookies of one host through `domains` gives what `domain` gives.
pub proof fn lemma_one_host_domains(cs: Seq<CookieView>, hosts: Seq<Seq<char>>)
    requires
        hosts.len() == 1,
    ensures
        keep_cookies(cs, |c: CookieView| any_host_matches(c.domain, hosts))
            == keep_cookies(cs, |c: CookieView| host_matches(c.domain, hosts[0])),
{
    let p = |c: CookieView| any_host_matches(c.domain, hosts);
    let q = |c: CookieView| host_matches(c.domain, hosts[0]);
    assert forall|c: CookieView| #[trigger] p(c) == q(c) by {
        if q(c) {
            assert(host_matches(c.domain, hosts[0]));
        }
    }
    assert(p =~= q);
}

/// Filtering a jar by host keeps exactly the cookies of that host and its
/// subdomains, and filtering again by the same host changes nothing.
pub proof fn lemma_domain_filter(cs: Seq<CookieView>, host: Seq<char>)
    ensures
        ({
            let kept = keep_cookies(cs, |c: CookieView| host_matches(c.domain, host));
            &&& forall|i: int| 0 <= i < kept.len() ==> host_matches((#[trigger] kept[i]).domain, host)
            &&& keep_cookies(kept, |c: CookieView| host_matches(c.domain, host)) == kept
        }),
{
    lemma_keep_cookies(cs, |c: CookieView| host_matches(c.domain, host));
}


/// A cookie stored for a host matches that host, and so does one stored for
/// any subdomain of it (its stored domain ends with `.` and the host), whether
/// or not the stored domain starts with `.`; no other cookie matches.
pub proof fn lemma_subdomains_match(d: Seq<char>, h: Seq<char>)
    ensures
        d == h && (d.len() == 0 || d[0] != '.') ==> host_matches(d, h),
        d.len() > h.len() && d.subrange(d.len() - h.len() - 1, d.len() as int) == seq!['.'] + h ==> host_matches(d, h),
        host_matches(d, h) ==> d == h || (d.len() > h.len() && d.subrange(d.len() - h.len() - 1, d.len() as int)
            == seq!['.'] + h),
{
    let b = bare_domain(d);
    if d.len() > 0 && d[0] == '.' {
        assert(b == d.drop_first());
        if d.len() > h.len() && d.subrange(d.len() - h.len() - 1, d.len() as int) == seq!['.'] + h {
            if b.len() > h.len() {
                assert(b.subrange(b.len() - h.len() - 1, b.len() as int) =~= d.subrange(d.len() - h.len() - 1, d.len() as int));
            } else {
                assert(d =~= d.subrange(d.len() - h.len() - 1, d.len() as int));
                assert(b =~= (seq!['.'] + h).drop_first());
                assert(b =~= h);
            }
        }
        if host_matches(d, h) {
            if b == h {
                assert(d.subrange(d.len() - h.len() - 1, d.len() as int) =~= d);
                assert(d =~= seq!['.'] + b);
            } else {
                assert(b.subrange(b.len() - h.len() - 1, b.len() as int) =~= d.subrange(d.len() - h.len() - 1, d.len() as int));
            }
        }
    }
}


/// Each cookies.txt line holds, separated by tabs: the domain (prefixed
/// `#HttpOnly_` exactly for HTTP-only cookies), `TRUE` exactly when the domain
/// starts with `.` (subdomains match), the path, `TRUE` exactly for secure
/// cookies, the expiry in decimal, the name and the value; then a newline.
pub proof fn lemma_netscape_line_fields(c: CookieView)
    ensures
        netscape_line(c) == (if c.http_only { "#HttpOnly_"@ } else { Seq::empty() }) + c.domain + seq!['\t']
            + (if c.domain.len() > 0 && c.domain[0] == '.' { "TRUE"@ } else { "FALSE"@ }) + seq!['\t'] + c.path
            + seq!['\t'] + (if c.secure { "TRUE"@ } else { "FALSE"@ }) + seq!['\t'] + decimal_text(c.expires)
            + seq!['\t'] + c.name + seq!['\t'] + c.value + seq!['\n'],
{
    reveal_strlit("\t");
    reveal_strlit("\n");
    assert("\t"@ =~= seq!['\t']);
    assert("\n"@ =~= seq!['\n']);
    let p = if c.http_only { "#HttpOnly_"@ } else { Seq::<char>::empty() };
    let sub = if c.domain.len() > 0 && c.domain[0] == '.' { "TRUE"@ } else { "FALSE"@ };
    let sec = if c.secure { "TRUE"@ } else { "FALSE"@ };
    assert(netscape_line(c) =~= p + c.domain + seq!['\t'] + sub + seq!['\t'] + c.path + seq!['\t'] + sec + seq!['\t']
        + decimal_text(c.expires) + seq!['\t'] + c.name + seq!['\t'] + c.value + seq!['\n']);
}

/// A cookies.txt file starts with its header line, and the lines of two runs
/// of cookies are the lines of the first followed by those of the second.
pub proof fn lemma_netscape_lines_concat(a: Seq<CookieView>, b: Seq<CookieView>)
    ensures
        netscape_lines(a + b) == netscape_lines(a) + netscape_lines(b),
        netscape_text(a) == "# Netscape HTTP Cookie File\n"@ + netscape_lines(a),
    decreases b.len(),
{
    if b.len() == 0 {
        assert(a + b =~= a);
    } else {
        lemma_netscape_lines_concat(a, b.drop_last());
        assert((a + b).drop_last() =~= a + b.drop_last());
        assert((a + b).last() == b.last());
    }
}

/// A header carries one cookie as `name=value`, and the header of two runs of
/// cookies is that of the first, `; `, then that of the second.
pub proof fn lemma_header_concat(a: Seq<CookieView>, b: Seq<CookieView>)
    ensures
        a.len() == 1 ==> header_text(a) == a[0].name + seq!['='] + a[0].value,
        a.len() > 0 && b.len() > 0 ==> header_text(a + b) == header_text(a) + seq![';', ' '] + header_text(b),
        header_text(a + Seq::<CookieView>::empty()) == header_text(a),
    decreases b.len(),
{
    reveal_strlit("=");
    reveal_strlit("; ");
    assert("="@ =~= seq!['=']);
    assert("; "@ =~= seq![';', ' ']);
    assert(a + Seq::<CookieView>::empty() =~= a);
    if a.len() > 0 && b.len() > 0 {
        if b.len() == 1 {
            assert((a + b).drop_last() =~= a);
            assert((a + b).last() == b[0]);
        } else {
            lemma_header_concat(a, b.drop_last());
            assert((a + b).drop_last() =~= a + b.drop_last());
            assert((a + b).last() == b.last());
            assert(header_text(a + b) =~= header_text(a) + seq![';', ' '] + header_text(b));
        }
    }
}


/// Filtering keeps at most the cookies it is given.
pub proof fn lemma_keep_cookies_len(cs: Seq<CookieView>, pred: spec_fn(CookieView) -> bool)
    ensures
        keep_cookies(cs, pred).len() <= cs.len(),
    decreases cs.len(),
{
    if cs.len() > 0 {
        lemma_keep_cookies_len(cs.drop_last(), pred);
    }
}

/// Filtering keeps every cookie that satisfies the predicate.
pub proof fn lemma_keep_cookies_contains(cs: Seq<CookieView>, pred: spec_fn(CookieView) -> bool, k: int)
    requires
        0 <= k < cs.len(),
        pred(cs[k]),
    ensures
        keep_cookies(cs, pred).contains(cs[k]),
    decreases cs.len(),
{
    let prev = keep_cookies(cs.drop_last(), pred);
    if k == cs.len() - 1 {
        assert(keep_cookies(cs, pred)[prev.len() as int] == cs[k]);
    } else {
        assert(cs.drop_last()[k] == cs[k]);
        lemma_keep_cookies_contains(cs.drop_last(), pred, k);
        let i = choose|i: int| 0 <= i < prev.len() && prev[i] == cs[k];
        if pred(cs.last()) {
            assert(keep_cookies(cs, pred)[i] == prev[i]);
        }
    }
}

} // verus!
