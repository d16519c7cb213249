//! Local file names for archived asset URLs.

use vstd::prelude::*;
use crate::text;
use crate::text::{chars_of, find_chars, string_of};

verus! {

/// What `url::Url::parse` makes of `input`: `None` when it refuses the input, else the
/// URL's path (`Url::path`) and its query (`Url::query`).
pub uninterp spec fn url_path_and_query(input: Seq<char>) -> Option<(Seq<char>, Option<Seq<char>>)>;

/// The characters of an optional string.
pub open spec fn opt_chars(q: Option<&str>) -> Option<Seq<char>> {
    match q {
        Some(s) => Some(s@),
        None => None,
    }
}

/// The characters of an optional owned string.
pub open spec fn opt_string_chars(q: Option<String>) -> Option<Seq<char>> {
    match q {
        Some(s) => Some(s@),
        None => None,
    }
}

/// The characters of each extension.
pub open spec fn ext_views(exts: Seq<&str>) -> Seq<Seq<char>> {
    exts.map_values(|e: &str| e@)
}

/// Parses `input` with `url::Url::parse` and takes its path and query. The contract
/// names the result only: the URL standard's parsing rules are not restated here.
#[verifier::external_body]
fn parse_path_and_query(input: &str) -> (res: Option<(String, Option<String>)>)
    ensures
        match res {
            Some((p, q)) => url_path_and_query(input@) == Some((p@, opt_string_chars(q))),
            None => url_path_and_query(input@) is None,
        },
{
    match url::Url::parse(input) {
        Ok(u) => Some((u.path().to_string(), u.query().map(|q| q.to_string()))),
        Err(_) => None,
    }
}

/// `s` without the `'/'` characters it starts with (`trim_start_matches('/')`).
pub open spec fn strip_leading_slashes(s: Seq<char>) -> Seq<char>
    decreases s.len(),
{
    if s.len() > 0 && s[0] == '/' {
        strip_leading_slashes(s.drop_first())
    } else {
        s
    }
}

/// Stripping removes exactly the run of `'/'` that starts `s`: what is left does not
/// start with `'/'`, and `s` is that many slashes followed by it.
pub proof fn lemma_strip_leading_slashes(s: Seq<char>)
    ensures
        ({
            let t = strip_leading_slashes(s);
            let k = s.len() - t.len();
            &&& t.len() <= s.len()
            &&& t.len() > 0 ==> t[0] != '/'
            &&& s.skip(k) == t
            &&& forall|i: int| 0 <= i < k ==> s[i] == '/'
        }),
    decreases s.len(),
{
    if s.len() > 0 && s[0] == '/' {
        lemma_strip_leading_slashes(s.drop_first());
        let t = strip_leading_slashes(s);
        let k = s.len() - t.len();
        assert(s.skip(k) =~= s.drop_first().skip(k - 1));
        assert forall|i: int| 0 <= i < k implies s[i] == '/' by {
            if i > 0 {
                assert(s[i] == s.drop_first()[i - 1]);
            }
        }
    } else {
        assert(s.skip(0) =~= s);
    }
}

/// Turning slashes into underscores keeps the length and every other character, and
/// leaves no slash.
pub proof fn lemma_slashes_to_underscores(s: Seq<char>)
    ensures
        slashes_to_underscores(s).len() == s.len(),
        forall|i: int| 0 <= i < s.len() ==> (s[i] != '/' ==> #[trigger] slashes_to_underscores(s)[i] == s[i]),
        forall|i: int| 0 <= i < s.len() ==> (s[i] == '/' ==> #[trigger] slashes_to_underscores(s)[i] == '_'),
        !slashes_to_underscores(s).contains('/'),
{
}

/// `s` with every `'/'` replaced by `'_'`.
pub open spec fn slashes_to_underscores(s: Seq<char>) -> Seq<char> {
    Seq::new(s.len(), |i: int| if s[i] == '/' { '_' } else { s[i] })
}

/// The flat name before truncation: the path without leading slashes, then `'_'` and
/// the query when there is one, every remaining slash turned into an underscore.
pub open spec fn joined_name(path: Seq<char>, query: Option<Seq<char>>) -> Seq<char> {
    let base = slashes_to_underscores(strip_leading_slashes(path));
    match query {
        Some(q) => base + seq!['_'] + slashes_to_underscores(q),
        None => base,
    }
}

/// `name` cut just after the first occurrence of the first extension of `exts` that
/// occurs in it; `name` itself when none does.
pub open spec fn cut_at_extension(name: Seq<char>, exts: Seq<Seq<char>>) -> Seq<char>
    decreases exts.len(),
{
    if exts.len() == 0 {
        name
    } else {
        match text::find_first(name, exts[0]) {
            Some(i) => name.take(i + exts[0].len()),
            None => cut_at_extension(name, exts.drop_first()),
        }
    }
}

/// The local file name for a URL path and query.
pub open spec fn clean_name(path: Seq<char>, query: Option<Seq<char>>, exts: Seq<Seq<char>>) -> Seq<char> {
    cut_at_extension(joined_name(path, query), exts)
}

/// The path and query that `sanitize_filename` works on: those of the parsed URL, or the
/// whole input and no query when the input does not parse.
pub open spec fn url_parts(url: Seq<char>) -> (Seq<char>, Option<Seq<char>>) {
    match url_path_and_query(url) {
        Some(pq) => pq,
        None => (url, None),
    }
}

/// The local file name that `sanitize_filename` gives for `url`.
pub open spec fn sanitized_name(url: Seq<char>, exts: Seq<Seq<char>>) -> Seq<char> {
    clean_name(url_parts(url).0, url_parts(url).1, exts)
}

/// Builds the local file name from a URL's path and optional query: leading `'/'`
/// removed, `"_<query>"` appended, every remaining `'/'` turned into `'_'`, then the
/// name is cut just after the first occurrence of the first of `clean_extensions` found
/// in it. The name never holds a `'/'` (see `lemma_clean_name_is_flat`).
pub fn clean_filename(path: &str, query: Option<&str>, clean_extensions: &[&str]) -> (res: String)
    ensures
        res@ == clean_name(path@, opt_chars(query), ext_views(clean_extensions@)),
        !res@.contains('/'),
{
    proof {
        lemma_clean_name_is_flat(path@, opt_chars(query), ext_views(clean_extensions@));
    }
    let p = chars_of(path);
    let mut start: usize = 0;
    assert(p@.skip(0) =~= p@);
    while start < p.len() && p[start] == '/'
        invariant
            start <= p@.len(),
            strip_leading_slashes(p@) == strip_leading_slashes(p@.skip(start as int)),
        decreases p@.len() - start,
    {
        assert(p@.skip(start as int).drop_first() =~= p@.skip(start + 1));
        start = start + 1;
    }
    let ghost stripped = p@.skip(start as int);
    assert(strip_leading_slashes(p@) == stripped);
    let mut name: Vec<char> = Vec::new();
    let mut k: usize = start;
    while k < p.len()
        invariant
            start <= k <= p@.len(),
            stripped == p@.skip(start as int),
            name@ =~= slashes_to_underscores(stripped).take(k - start),
        decreases p@.len() - k,
    {
        let c = p[k];
        if c == '/' {
            name.push('_');
        } else {
            name.push(c);
        }
        k = k + 1;
    }
    assert(name@ =~= slashes_to_underscores(stripped));
    match query {
        Some(q) => {
            name.push('_');
            let qc = chars_of(q);
            let mut j: usize = 0;
            let ghost base = name@;
            while j < qc.len()
                invariant
                    j <= qc@.len(),
                    name@ =~= base + slashes_to_underscores(qc@).take(j as int),
                decreases qc@.len() - j,
            {
                let c = qc[j];
                if c == '/' {
                    name.push('_');
                } else {
                    name.push(c);
                }
                j = j + 1;
            }
            assert(slashes_to_underscores(qc@).take(qc@.len() as int) =~= slashes_to_underscores(qc@));
        },
        None => {},
    }
    let ghost joined = name@;
    assert(joined == joined_name(path@, opt_chars(query)));
    let ghost exts = ext_views(clean_extensions@);
    let mut e: usize = 0;
    assert(exts.skip(0) =~= exts);
    while e < clean_extensions.len()
        invariant
            e <= clean_extensions@.len(),
            exts == ext_views(clean_extensions@),
            name@ == joined,
            joined == joined_name(path@, opt_chars(query)),
            cut_at_extension(joined, exts) == cut_at_extension(joined, exts.skip(e as int)),
        decreases clean_extensions@.len() - e,
    {
        let ext = chars_of(clean_extensions[e]);
        assert(exts.skip(e as int)[0] == ext@);
        match find_chars(&name, &ext) {
            Some(i) => {
                proof {
                    text::lemma_find_first(name@, ext@);
                }
                let len: usize = name.len();
                assert(i + ext@.len() <= len);
                name.truncate(i + ext.len());
                assert(name@ =~= joined.take(i + ext@.len()));
                assert(cut_at_extension(joined, exts.skip(e as int)) == joined.take(i + ext@.len()));
                return string_of(name.as_slice());
            },
            None => {},
        }
        assert(exts.skip(e as int).drop_first() =~= exts.skip(e + 1));
        e = e + 1;
    }
    assert(exts.skip(e as int).len() == 0);
    string_of(name.as_slice())
}

/// Converts an archived asset URL into a flat local file name. The URL is parsed with
/// `url::Url::parse`; when it does not parse, the whole input stands for the path and
/// there is no query. See `clean_filename` for the rest.
pub fn sanitize_filename(original_url: &str, clean_extensions: &[&str]) -> (res: String)
    ensures
        res@ == sanitized_name(original_url@, ext_views(clean_extensions@)),
        !res@.contains('/'),
        url_path_and_query(original_url@) matches Some((p, q)) ==> res@ == clean_name(
            p,
            q,
            ext_views(clean_extensions@),
        ),
        url_path_and_query(original_url@) is None ==> res@ == clean_name(
            original_url@,
            None,
            ext_views(clean_extensions@),
        ),
{
    proof {
        lemma_clean_name_is_flat(
            url_parts(original_url@).0,
            url_parts(original_url@).1,
            ext_views(clean_extensions@),
        );
    }
    match parse_path_and_query(original_url) {
        Some((path, query)) => {
            let q: Option<&str> = match &query {
                Some(s) => Some(s.as_str()),
                None => None,
            };
            clean_filename(path.as_str(), q, clean_extensions)
        },
        None => clean_filename(original_url, None, clean_extensions),
    }
}


/// `prefix` is an initial part of `s`.
pub open spec fn is_prefix_of(prefix: Seq<char>, s: Seq<char>) -> bool {
    prefix.len() <= s.len() && s.take(prefix.len() as int) == prefix
}

/// Cutting at the extensions keeps an initial part of the name. When no extension occurs
/// in the name, the name is kept whole; otherwise, with `exts[j]` the first extension in
/// list order that occurs, the result is the name up to and including the first
/// occurrence of `exts[j]`, and so ends with `exts[j]`.
pub proof fn lemma_cut_at_first_extension(name: Seq<char>, exts: Seq<Seq<char>>)
    ensures
        is_prefix_of(cut_at_extension(name, exts), name),
        (forall|j: int| 0 <= j < exts.len() ==> !text::contains_chars(name, #[trigger] exts[j]))
            ==> cut_at_extension(name, exts) == name,
        forall|j: int|
            0 <= j < exts.len() && text::contains_chars(name, #[trigger] exts[j]) && (forall|k: int|
                0 <= k < j ==> !text::contains_chars(name, exts[k])) ==> {
                let cut = cut_at_extension(name, exts);
                &&& cut == name.take(text::find_first(name, exts[j])->0 + exts[j].len())
                &&& cut.skip(cut.len() - exts[j].len()) == exts[j]
            },
    decreases exts.len(),
{
    if exts.len() == 0 {
        assert(name.take(name.len() as int) =~= name);
    } else {
        text::lemma_find_first(name, exts[0]);
        match text::find_first(name, exts[0]) {
            Some(i) => {
                let cut = name.take(i + exts[0].len());
                assert(name.take(cut.len() as int) =~= cut);
                assert(cut.skip(cut.len() - exts[0].len()) =~= name.subrange(i, i + exts[0].len()));
                assert forall|j: int|
                    0 <= j < exts.len() && text::contains_chars(name, #[trigger] exts[j]) && (forall|k: int|
                        0 <= k < j ==> !text::contains_chars(name, exts[k])) implies j == 0 by {
                    if j > 0 {
                        assert(text::contains_chars(name, exts[0]));
                    }
                }
            },
            None => {
                let rest = exts.drop_first();
                lemma_cut_at_first_extension(name, rest);
                assert forall|j: int|
                    0 <= j < exts.len() && text::contains_chars(name, #[trigger] exts[j]) && (forall|k: int|
                        0 <= k < j ==> !text::contains_chars(name, exts[k])) implies {
                    let cut = cut_at_extension(name, exts);
                    &&& cut == name.take(text::find_first(name, exts[j])->0 + exts[j].len())
                    &&& cut.skip(cut.len() - exts[j].len()) == exts[j]
                } by {
                    assert(j > 0);
                    assert(rest[j - 1] == exts[j]);
                    assert forall|k: int| 0 <= k < j - 1 implies !text::contains_chars(name, rest[k]) by {
                        assert(rest[k] == exts[k + 1]);
                    }
                }
                if forall|j: int| 0 <= j < exts.len() ==> !text::contains_chars(name, #[trigger] exts[j]) {
                    assert forall|j: int| 0 <= j < rest.len() implies !text::contains_chars(name, #[trigger] rest[j]) by {
                        assert(rest[j] == exts[j + 1]);
                    }
                }
            },
        }
    }
}

/// The joined name holds no `'/'`.
proof fn lemma_joined_name_is_flat(path: Seq<char>, query: Option<Seq<char>>)
    ensures
        !joined_name(path, query).contains('/'),
{
    let base = slashes_to_underscores(strip_leading_slashes(path));
    assert(!base.contains('/'));
    match query {
        Some(q) => {
            let tail = slashes_to_underscores(q);
            let j = base + seq!['_'] + tail;
            assert forall|i: int| 0 <= i < j.len() implies j[i] != '/' by {
                if i < base.len() {
                    assert(j[i] == base[i]);
                } else if i > base.len() {
                    assert(j[i] == tail[i - base.len() - 1]);
                }
            }
        },
        None => {},
    }
}

/// For a URL that parses with path `p` and query `q`, the file name is cut from
/// `p` without its leading slashes, `'_'`, and the whole query `q` (every parameter of
/// it), slashes turned into underscores; when no extension occurs in that name, the
/// whole query ends the file name.
pub proof fn lemma_sanitized_keeps_whole_query(url: Seq<char>, exts: Seq<Seq<char>>, p: Seq<char>, q: Seq<char>)
    requires
        url_path_and_query(url) == Some((p, Some(q))),
    ensures
        ({
            let full = slashes_to_underscores(strip_leading_slashes(p)) + seq!['_'] + slashes_to_underscores(q);
            let name = sanitized_name(url, exts);
            &&& is_prefix_of(name, full)
            &&& (forall|j: int| 0 <= j < exts.len() ==> !text::contains_chars(full, #[trigger] exts[j]))
                ==> {
                &&& name == full
                &&& name.skip(name.len() - q.len()) == slashes_to_underscores(q)
            }
        }),
{
    let full = slashes_to_underscores(strip_leading_slashes(p)) + seq!['_'] + slashes_to_underscores(q);
    assert(joined_name(p, Some(q)) == full);
    lemma_cut_at_first_extension(full, exts);
    let tail = slashes_to_underscores(q);
    assert(full.skip(full.len() - q.len()) =~= tail);
}

/// For a URL that parses with path `p` and no query, the file name is cut from `p`
/// without its leading slashes, the other slashes turned into underscores.
pub proof fn lemma_sanitized_without_query(url: Seq<char>, exts: Seq<Seq<char>>, p: Seq<char>)
    requires
        url_path_and_query(url) == Some((p, None::<Seq<char>>)),
    ensures
        sanitized_name(url, exts) == cut_at_extension(slashes_to_underscores(strip_leading_slashes(p)), exts),
{
}

/// For input that does not parse as a URL, the file name is cut from the whole input,
/// leading slashes removed and the other slashes turned into underscores.
pub proof fn lemma_sanitized_unparsable(url: Seq<char>, exts: Seq<Seq<char>>)
    requires
        url_path_and_query(url) is None,
    ensures
        sanitized_name(url, exts) == cut_at_extension(slashes_to_underscores(strip_leading_slashes(url)), exts),
{
}

/// A local file name is flat: it never holds a `'/'`, so it names no directory.
pub proof fn lemma_clean_name_is_flat(path: Seq<char>, query: Option<Seq<char>>, exts: Seq<Seq<char>>)
    ensures
        !clean_name(path, query, exts).contains('/'),
{
    let joined = joined_name(path, query);
    lemma_joined_name_is_flat(path, query);
    lemma_cut_at_first_extension(joined, exts);
    let cut = clean_name(path, query, exts);
    assert forall|i: int| 0 <= i < cut.len() implies cut[i] != '/' by {
        assert(cut[i] == joined.take(cut.len() as int)[i]);
    }
}

} // verus!
