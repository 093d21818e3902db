//! The deciding parts of the local web UI: which requests carry the session
//! token, how the token is made and injected into the page, and which
//! content type an asset is served with. Serving HTTP happens outside the
//! library.

use vstd::prelude::*;

use vstd::utf8::encode_utf8;

use crate::text::{
    contains, has_substring, find, find_from, lemma_find_from_bounds, occurs_at, push_all, rsplit_once, rsplit_once_at,
    same, to_chars, to_string,
};

verus! {

// ---------------------------------------------------------------------------
// HTML escaping
// ---------------------------------------------------------------------------

/// The escape of one character in an HTML attribute value.
pub open spec fn escape_char(c: char) -> Seq<char> {
    if c == '&' {
        "&amp;"@
    } else if c == '<' {
        "&lt;"@
    } else if c == '>' {
        "&gt;"@
    } else if c == '"' {
        "&quot;"@
    } else {
        seq![c]
    }
}

/// `s` with `&`, `<`, `>` and `"` replaced by their character references.
pub open spec fn html_escape_spec(s: Seq<char>) -> Seq<char>
    decreases s.len(),
{
    if s.len() == 0 {
        seq![]
    } else {
        html_escape_spec(s.drop_last()) + escape_char(s.last())
    }
}

/// Escapes text for use inside a double-quoted HTML attribute.
pub fn html_escape(s: &str) -> (r: String)
    ensures
        r@ == html_escape_spec(s@),
{
    let cs = to_chars(s);
    let amp = to_chars("&amp;");
    let lt = to_chars("&lt;");
    let gt = to_chars("&gt;");
    let quot = to_chars("&quot;");
    let mut out: Vec<char> = Vec::new();
    let mut i: usize = 0;
    while i < cs.len()
        invariant
            i <= cs@.len(),
            amp@ == "&amp;"@,
            lt@ == "&lt;"@,
            gt@ == "&gt;"@,
            quot@ == "&quot;"@,
            out@ == html_escape_spec(cs@.take(i as int)),
        decreases cs@.len() - i,
    {
        let c = cs[i];
        assert(cs@.take(i + 1).drop_last() =~= cs@.take(i as int));
        if c == '&' {
            push_all(&mut out, &amp);
        } else if c == '<' {
            push_all(&mut out, &lt);
        } else if c == '>' {
            push_all(&mut out, &gt);
        } else if c == '"' {
            push_all(&mut out, &quot);
        } else {
            out.push(c);
            assert(out@ =~= html_escape_spec(cs@.take(i as int)) + seq![c]);
        }
        i = i + 1;
    }
    assert(cs@.take(i as int) =~= cs@);
    to_string(&out)
}

proof fn lemma_escape_char_safe(c: char)
    ensures
        forall|k: int|
            0 <= k < escape_char(c).len() ==> #[trigger] escape_char(c)[k] != '<' && escape_char(c)[k]
                != '>' && escape_char(c)[k] != '"',
{
    reveal_strlit("&amp;");
    reveal_strlit("&lt;");
    reveal_strlit("&gt;");
    reveal_strlit("&quot;");
}

/// The escaped text holds no `<`, `>` or `"`: it cannot close the attribute
/// or the tag it is placed in.
pub proof fn law_html_escape_safe(s: Seq<char>)
    ensures
        forall|k: int|
            0 <= k < html_escape_spec(s).len() ==> #[trigger] html_escape_spec(s)[k] != '<'
                && html_escape_spec(s)[k] != '>' && html_escape_spec(s)[k] != '"',
    decreases s.len(),
{
    if s.len() > 0 {
        law_html_escape_safe(s.drop_last());
        lemma_escape_char_safe(s.last());
        let a = html_escape_spec(s.drop_last());
        let b = escape_char(s.last());
        assert forall|k: int| 0 <= k < (a + b).len() implies #[trigger] (a + b)[k] != '<' && (a
            + b)[k] != '>' && (a + b)[k] != '"' by {
            if k < a.len() {
                assert((a + b)[k] == a[k]);
            } else {
                assert((a + b)[k] == b[k - a.len()]);
            }
        }
    }
}

// ---------------------------------------------------------------------------
// Token injection
// ---------------------------------------------------------------------------

/// The placeholder in `index.html` that the token replaces.
pub open spec fn token_needle() -> Seq<u8> {
    "<!--TOKEN-->"@.map_values(|c: char| c as u8)
}

/// The tag that carries the token.
pub open spec fn token_meta(token: Seq<char>) -> Seq<char> {
    "<meta name=\"whichway-token\" content=\""@ + html_escape_spec(token) + "\">"@
}

/// The page with the first placeholder replaced by the token tag (UTF-8
/// encoded); unchanged when there is no placeholder.
pub open spec fn inject_token_spec(html: Seq<u8>, token: Seq<char>) -> Seq<u8> {
    let pos = find(html, token_needle());
    if pos < 0 {
        html
    } else {
        html.take(pos) + encode_utf8(token_meta(token)) + html.skip(pos + token_needle().len())
    }
}

fn needle_bytes() -> (r: Vec<u8>)
    ensures
        r@ == token_needle(),
{
    let cs = to_chars("<!--TOKEN-->");
    let mut r: Vec<u8> = Vec::new();
    let mut i: usize = 0;
    proof {
        reveal_strlit("<!--TOKEN-->");
    }
    while i < cs.len()
        invariant
            i <= cs@.len(),
            cs@ == "<!--TOKEN-->"@,
            r@ == cs@.take(i as int).map_values(|c: char| c as u8),
        decreases cs@.len() - i,
    {
        let b = cs[i] as u8;
        r.push(b);
        i = i + 1;
        assert(r@ =~= cs@.take(i as int).map_values(|c: char| c as u8));
    }
    assert(cs@.take(i as int) =~= cs@);
    r
}

fn bytes_match_at(s: &[u8], p: &Vec<u8>, i: usize) -> (r: bool)
    ensures
        r == occurs_at(s@, p@, i as int),
{
    if i > s.len() || p.len() > s.len() - i {
        return false;
    }
    let mut k: usize = 0;
    while k < p.len()
        invariant
            i + p.len() <= s.len(),
            k <= p@.len(),
            forall|j: int| 0 <= j < k ==> s@[i + j] == p@[j],
        decreases p@.len() - k,
    {
        if s[i + k] != p[k] {
            assert(s@.subrange(i as int, i + p@.len())[k as int] != p@[k as int]);
            return false;
        }
        k = k + 1;
    }
    assert(s@.subrange(i as int, i + p@.len()) =~= p@);
    true
}

fn find_bytes(s: &[u8], p: &Vec<u8>) -> (r: Option<usize>)
    ensures
        match r {
            Some(i) => find(s@, p@) == i as int,
            None => find(s@, p@) == -1,
        },
{
    if p.len() > s.len() {
        return None;
    }
    let last = s.len() - p.len();
    let mut i: usize = 0;
    loop
        invariant
            last == s@.len() - p@.len(),
            i <= last,
            find(s@, p@) == find_from(s@, p@, i as int),
        decreases last - i,
    {
        if bytes_match_at(s, p, i) {
            return Some(i);
        }
        if i == last {
            assert(find_from(s@, p@, i + 1) == -1);
            return None;
        }
        i = i + 1;
    }
}

fn push_bytes(out: &mut Vec<u8>, b: &[u8], from: usize, to: usize)
    requires
        from <= to <= b@.len(),
    ensures
        final(out)@ == old(out)@ + b@.subrange(from as int, to as int),
{
    let ghost pre = out@;
    let mut i = from;
    while i < to
        invariant
            from <= i <= to <= b@.len(),
            out@ == pre + b@.subrange(from as int, i as int),
        decreases to - i,
    {
        out.push(b[i]);
        i = i + 1;
        assert(out@ =~= pre + b@.subrange(from as int, i as int));
    }
}

/// Replaces the `<!--TOKEN-->` placeholder in the page with a
/// `<meta name="whichway-token">` tag holding the (escaped) token.
pub fn inject_token(html: &[u8], token: &str) -> (r: Vec<u8>)
    ensures
        r@ == inject_token_spec(html@, token@),
{
    let needle = needle_bytes();
    match find_bytes(html, &needle) {
        None => {
            let mut out: Vec<u8> = Vec::new();
            push_bytes(&mut out, html, 0, html.len());
            assert(out@ =~= html@);
            out
        },
        Some(pos) => {
            proof {
                lemma_find_from_bounds(html@, needle@, 0);
                assert(occurs_at(html@, needle@, pos as int));
                assert(pos + needle.len() <= html.len());
            }
            let mut meta = to_chars("<meta name=\"whichway-token\" content=\"");
            let esc = html_escape(token);
            push_all(&mut meta, &to_chars(esc.as_str()));
            push_all(&mut meta, &to_chars("\">"));
            let replacement = to_string(&meta);
            let rb = replacement.as_str().as_bytes();
            let mut out: Vec<u8> = Vec::new();
            push_bytes(&mut out, html, 0, pos);
            push_bytes(&mut out, rb, 0, rb.len());
            push_bytes(&mut out, html, pos + needle.len(), html.len());
            assert(html@.subrange(0, pos as int) =~= html@.take(pos as int));
            assert(rb@.subrange(0, rb@.len() as int) =~= rb@);
            assert(html@.subrange(pos + needle@.len(), html@.len() as int) =~= html@.skip(
                pos + needle@.len(),
            ));
            out
        },
    }
}

// ---------------------------------------------------------------------------
// Content types
// ---------------------------------------------------------------------------

/// The text after the last `.` of a path, or the whole path
/// (`str::rsplit('.').next()`).
pub open spec fn extension(path: Seq<char>) -> Seq<char> {
    match rsplit_once(path, "."@) {
        Some((_, ext)) => ext,
        None => path,
    }
}

pub open spec fn content_type_spec(path: Seq<char>) -> Seq<char> {
    let e = extension(path);
    if e == "html"@ {
        "text/html; charset=utf-8"@
    } else if e == "css"@ {
        "text/css; charset=utf-8"@
    } else if e == "js"@ {
        "application/javascript; charset=utf-8"@
    } else if e == "svg"@ {
        "image/svg+xml"@
    } else if e == "png"@ {
        "image/png"@
    } else if e == "json"@ {
        "application/json"@
    } else {
        "application/octet-stream"@
    }
}

/// An asset path is served only when it holds no `..`, so that a request
/// cannot climb out of the asset tree.
pub fn asset_path_allowed(path: &str) -> (r: bool)
    ensures
        r == !contains(path@, ".."@),
{
    !has_substring(&to_chars(path), &to_chars(".."))
}

/// The content type an asset is served with, by its extension.
pub fn guess_content_type(path: &str) -> (r: &'static str)
    ensures
        r@ == content_type_spec(path@),
{
    let p = to_chars(path);
    let ext = match rsplit_once_at(&p, &to_chars(".")) {
        Some((_, e)) => e,
        None => p,
    };
    if same(&ext, &to_chars("html")) {
        "text/html; charset=utf-8"
    } else if same(&ext, &to_chars("css")) {
        "text/css; charset=utf-8"
    } else if same(&ext, &to_chars("js")) {
        "application/javascript; charset=utf-8"
    } else if same(&ext, &to_chars("svg")) {
        "image/svg+xml"
    } else if same(&ext, &to_chars("png")) {
        "image/png"
    } else if same(&ext, &to_chars("json")) {
        "application/json"
    } else {
        "application/octet-stream"
    }
}

// ---------------------------------------------------------------------------
// The session token
// ---------------------------------------------------------------------------

/// The token a request supplies: the `X-Whichway-Token` header if present,
/// else the `token` query parameter.
pub open spec fn supplied_token(header: Option<Seq<char>>, query: Option<Seq<char>>) -> Option<Seq<char>> {
    match header {
        Some(h) => Some(h),
        None => query,
    }
}

pub open spec fn opt_text(o: Option<&str>) -> Option<Seq<char>> {
    match o {
        Some(s) => Some(s@),
        None => None,
    }
}

/// Whether an `/api/*` request may proceed: the token it supplies (header
/// first, then query) equals the session token.
pub fn token_authorized(header: Option<&str>, query: Option<&str>, token: &str) -> (r: bool)
    ensures
        r == (supplied_token(opt_text(header), opt_text(query)) == Some(token@)),
{
    let supplied = match header {
        Some(h) => Some(h),
        None => query,
    };
    match supplied {
        Some(t) => same(&to_chars(t), &to_chars(token)),
        None => false,
    }
}

/// A request is let through only with the session token: with a header,
/// exactly when the header is the token (the query is then not consulted);
/// without one, exactly when the query parameter is the token; with
/// neither, never.
pub proof fn law_token_check(header: Option<Seq<char>>, query: Option<Seq<char>>, token: Seq<char>)
    ensures
        header matches Some(h) ==> (supplied_token(header, query) == Some(token) <==> h == token),
        header is None ==> (supplied_token(header, query) == Some(token) <==> query == Some(token)),
        header is None && query is None ==> supplied_token(header, query) != Some(token),
{
}

/// The lowercase hex digit of `d < 16`.
pub open spec fn hex_digit(d: nat) -> char {
    if d < 10 {
        (d + 48) as char
    } else {
        (d + 87) as char
    }
}

/// Two lowercase hex digits per byte (`format!("{b:02x}")`).
pub open spec fn hex_lower(bytes: Seq<u8>) -> Seq<char>
    decreases bytes.len(),
{
    if bytes.len() == 0 {
        seq![]
    } else {
        hex_lower(bytes.drop_last()) + seq![
            hex_digit((bytes.last() / 16) as nat),
            hex_digit((bytes.last() % 16) as nat),
        ]
    }
}

fn hex_char(d: u8) -> (c: char)
    requires
        d < 16,
    ensures
        c == hex_digit(d as nat),
{
    if d < 10 {
        (d + 48) as char
    } else {
        (d + 87) as char
    }
}

/// The bytes in lowercase hex, two digits each.
pub fn hex_encode(bytes: &[u8]) -> (s: String)
    ensures
        s@ == hex_lower(bytes@),
{
    let mut v: Vec<char> = Vec::new();
    let mut i: usize = 0;
    while i < bytes.len()
        invariant
            i <= bytes@.len(),
            v@ == hex_lower(bytes@.take(i as int)),
        decreases bytes@.len() - i,
    {
        let b = bytes[i];
        assert(bytes@.take(i + 1).drop_last() =~= bytes@.take(i as int));
        v.push(hex_char(b / 16));
        v.push(hex_char(b % 16));
        i = i + 1;
        assert(v@ =~= hex_lower(bytes@.take(i as int)));
    }
    assert(bytes@.take(i as int) =~= bytes@);
    to_string(&v)
}

/// Fills `n` bytes from the operating system's RNG (`rand::rngs::OsRng`,
/// that is `rand_core::OsRng`, through `RngCore::try_fill_bytes`, which
/// reports a failure of the OS source instead of panicking). On success
/// exactly `n` bytes come back; their values are random, so nothing more is
/// stated of them.
#[verifier::external_body]
fn os_random_bytes(n: usize) -> (r: Option<Vec<u8>>)
    requires
        n <= isize::MAX,
    ensures
        r matches Some(v) ==> v@.len() == n,
{
    let mut buf = vec![0u8; n];
    match rand::RngCore::try_fill_bytes(&mut rand::rngs::OsRng, &mut buf) {
        Ok(()) => Some(buf),
        Err(_) => None,
    }
}

/// A fresh session token: 24 random bytes in lowercase hex; `None` when the
/// operating system's random source fails.
pub fn generate_token() -> (s: Option<String>)
    ensures
        s matches Some(t) ==> exists|b: Seq<u8>| b.len() == 24 && t@ == hex_lower(b),
{
    match os_random_bytes(24) {
        Some(b) => Some(hex_encode(b.as_slice())),
        None => None,
    }
}

/// A token is twice as long as its bytes and made of `0-9a-f` only.
pub proof fn law_token_shape(b: Seq<u8>)
    ensures
        hex_lower(b).len() == 2 * b.len(),
        forall|k: int|
            0 <= k < hex_lower(b).len() ==> {
                let c = #[trigger] hex_lower(b)[k];
                ('0' <= c <= '9') || ('a' <= c <= 'f')
            },
    decreases b.len(),
{
    if b.len() > 0 {
        law_token_shape(b.drop_last());
        let a = hex_lower(b.drop_last());
        let t = seq![hex_digit((b.last() / 16) as nat), hex_digit((b.last() % 16) as nat)];
        assert forall|k: int| 0 <= k < (a + t).len() implies {
            let c = #[trigger] (a + t)[k];
            ('0' <= c <= '9') || ('a' <= c <= 'f')
        } by {
            if k < a.len() {
                assert((a + t)[k] == a[k]);
            } else {
                assert((a + t)[k] == t[k - a.len()]);
            }
        }
    }
}

} // verus!
