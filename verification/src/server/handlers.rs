//! Shared types and helpers for the HTTP handlers: response bodies, the
//! placeholders of a request, the uploaded file, and the processing
//! configuration.

use vstd::prelude::*;
use vstd::utf8::encode_utf8;

use crate::config::{default_text_extensions, Config};
use crate::placeholders::{insert_all, insert_entry, str_equal, PlaceholderMap};
use crate::server::config::Settings;
use crate::strings::{all_ascii, chars_of, concat, concat3, decimal, decimal_string, string_from_chars, trim, trim_str};

verus! {

broadcast use vstd::string::group_string_axioms;

/// Response for successful processing.
#[derive(Debug, Clone)]
pub struct ProcessResponse {
    pub success: bool,
    pub input_size: usize,
    pub output_size: usize,
    pub processing_time_ms: u64,
    pub message: Option<String>,
}

/// Error response.
#[derive(Debug, Clone)]
pub struct ErrorResponse {
    pub error: String,
    pub message: String,
    pub details: Option<String>,
}

/// An error response as plain values.
pub type ErrorView = (Seq<char>, Seq<char>, Option<Seq<char>>);

impl View for ErrorResponse {
    type V = ErrorView;

    open spec fn view(&self) -> ErrorView {
        (
            self.error@,
            self.message@,
            match self.details {
                Some(d) => Some(d@),
                None => None,
            },
        )
    }
}

/// Query parameters for processing endpoints.
///
/// All query parameters (except reserved ones) are treated as placeholders.
#[derive(Debug, Clone)]
pub struct ProcessQuery {
    /// Placeholders as a JSON object string (legacy support).
    pub placeholders: Option<String>,
}

/// The query parameter that is not treated as a placeholder.
pub const RESERVED_PARAM: &'static str = "placeholders";

/// The members of a JSON object whose values are all strings, as
/// `serde_json::from_str` into a `BTreeMap<String, String>` reads them
/// (by key order, a later duplicate winning); `None` when the text is not
/// such an object.
pub uninterp spec fn json_string_object(text: Seq<char>) -> Option<Seq<(Seq<char>, Seq<char>)>>;

/// Reads a JSON object of strings (`serde_json::from_str`); on failure,
/// serde_json's message.
#[verifier::external_body]
fn read_json_object(text: &str) -> (r: Result<Vec<(String, String)>, String>)
    ensures
        match json_string_object(text@) {
            Some(ps) => r matches Ok(v) && v@.map_values(|p: (String, String)| (p.0@, p.1@)) == ps,
            None => r is Err,
        },
{
    serde_json::from_str::<std::collections::BTreeMap<String, String>>(text).map(
        |m| m.into_iter().collect(),
    ).map_err(|e| e.to_string())
}

/// The name-value pairs of a query string in the
/// `application/x-www-form-urlencoded` syntax, as `form_urlencoded::parse`
/// decodes them, in order.
pub uninterp spec fn form_pairs(query: Seq<u8>) -> Seq<(Seq<char>, Seq<char>)>;

/// Decodes the name-value pairs of a query string (`form_urlencoded::parse`).
#[verifier::external_body]
fn query_pairs(query: &str) -> (r: Vec<(String, String)>)
    ensures
        r@.map_values(|p: (String, String)| (p.0@, p.1@)) == form_pairs(encode_utf8(query@)),
{
    form_urlencoded::parse(query.as_bytes()).map(|(k, v)| (k.into_owned(), v.into_owned())).collect()
}

/// The placeholders of the legacy JSON parameter: none when it is absent or
/// empty; the object's members when it is a JSON object of strings.
pub open spec fn legacy_placeholders(json: Option<Seq<char>>) -> Option<Seq<(Seq<char>, Seq<char>)>> {
    match json {
        Some(s) => if s.len() > 0 {
            match json_string_object(s) {
                Some(ps) => Some(insert_all(Seq::empty(), ps)),
                None => None,
            }
        } else {
            Some(Seq::empty())
        },
        None => Some(Seq::empty()),
    }
}

/// Parses placeholders from the legacy JSON parameter.
pub fn parse_placeholders_json(json_str: &Option<String>) -> (r: Result<PlaceholderMap, String>)
    ensures
        match legacy_placeholders(
            match json_str {
                Some(s) => Some(s@),
                None => None,
            },
        ) {
            Some(ps) => r matches Ok(m) && m@ == ps,
            None => r matches Err(e) && exists|d: Seq<char>| e@ == "Invalid JSON: "@ + d,
        },
{
    match json_str {
        Some(s) => {
            if s.as_str().is_empty() {
                return Ok(PlaceholderMap::new());
            }
            match read_json_object(s.as_str()) {
                Ok(pairs) => Ok(PlaceholderMap::from_pairs(pairs.as_slice())),
                Err(e) => {
                    let m = concat("Invalid JSON: ", e.as_str());
                    assert(m@ == "Invalid JSON: "@ + e@);
                    Err(m)
                },
            }
        },
        None => Ok(PlaceholderMap::new()),
    }
}

/// A key with every space turned into `_`.
pub open spec fn underscores(s: Seq<char>) -> Seq<char> {
    s.map_values(|c: char| if c == ' ' { '_' } else { c })
}

/// Executable `underscores`.
fn to_underscores(s: &str) -> (r: String)
    ensures
        r@ == underscores(s@),
{
    let cs = chars_of(s);
    let mut out: Vec<char> = Vec::new();
    let mut i: usize = 0;
    while i < cs.len()
        invariant
            cs@ == s@,
            0 <= i <= cs@.len(),
            out@ == underscores(cs@.take(i as int)),
        decreases cs@.len() - i,
    {
        let c = if cs[i] == ' ' {
            '_'
        } else {
            cs[i]
        };
        out.push(c);
        i = i + 1;
        assert(out@ =~= underscores(cs@.take(i as int)));
    }
    assert(cs@.take(i as int) =~= cs@);
    string_from_chars(out.as_slice())
}

/// Whether every character is ASCII.
fn is_ascii_text(s: &str) -> (r: bool)
    ensures
        r == all_ascii(s@),
{
    let cs = chars_of(s);
    let mut i: usize = 0;
    while i < cs.len()
        invariant
            cs@ == s@,
            0 <= i <= cs@.len(),
            forall|k: int| 0 <= k < i ==> (#[trigger] cs@[k] as u32) < 0x80,
        decreases cs@.len() - i,
    {
        if (cs[i] as u32) >= 0x80 {
            return false;
        }
        i = i + 1;
    }
    true
}

/// The placeholder table after the query pairs are applied in order to
/// `m`: the reserved parameter is skipped; other names are trimmed, with
/// spaces turned into `_`, and must be ASCII; a later value replaces an
/// earlier one.
pub open spec fn apply_query(m: Seq<(Seq<char>, Seq<char>)>, pairs: Seq<(Seq<char>, Seq<char>)>) -> Result<
    Seq<(Seq<char>, Seq<char>)>,
    Seq<char>,
>
    decreases pairs.len(),
{
    if pairs.len() == 0 {
        Ok(m)
    } else {
        match apply_query(m, pairs.drop_last()) {
            Err(e) => Err(e),
            Ok(m2) => {
                let (k, v) = pairs.last();
                if k == RESERVED_PARAM@ {
                    Ok(m2)
                } else {
                    let pk = underscores(trim(k));
                    if !all_ascii(pk) {
                        Err(
                            "Invalid placeholder value for key '"@ + k
                                + "': must contain only ASCII characters."@,
                        )
                    } else {
                        Ok(insert_entry(m2, pk, v))
                    }
                }
            },
        }
    }
}

/// Parses placeholders from a request's query string.
///
/// All query parameters except `placeholders` are placeholders. If the
/// legacy `placeholders` JSON parameter is given, its values come first,
/// and explicit query parameters take precedence over them.
pub fn parse_placeholders_from_request(query_string: &str, legacy_placeholders_json: &Option<String>) -> (r:
    Result<PlaceholderMap, String>)
    ensures
        match legacy_placeholders(
            match legacy_placeholders_json {
                Some(s) => Some(s@),
                None => None,
            },
        ) {
            Some(base) => match apply_query(base, form_pairs(encode_utf8(query_string@))) {
                Ok(ps) => r matches Ok(m) && m@ == ps,
                Err(e) => r matches Err(x) && x@ == e,
            },
            None => r matches Err(e) && exists|d: Seq<char>| e@ == "Invalid JSON: "@ + d,
        },
{
    let mut placeholders = parse_placeholders_json(legacy_placeholders_json)?;
    let ghost base = placeholders@;
    let pairs = query_pairs(query_string);
    let ghost ps = pairs@.map_values(|p: (String, String)| (p.0@, p.1@));
    let mut i: usize = 0;
    assert(ps.take(0) =~= Seq::<(Seq<char>, Seq<char>)>::empty());
    while i < pairs.len()
        invariant
            ps == pairs@.map_values(|p: (String, String)| (p.0@, p.1@)),
            ps == form_pairs(encode_utf8(query_string@)),
            legacy_placeholders(
                match legacy_placeholders_json {
                    Some(s) => Some(s@),
                    None => None,
                },
            ) == Some(base),
            0 <= i <= ps.len(),
            apply_query(base, ps.take(i as int)) == Ok::<
                Seq<(Seq<char>, Seq<char>)>,
                Seq<char>,
            >(placeholders@),
        decreases ps.len() - i,
    {
        let key = pairs[i].0.as_str();
        let value = &pairs[i].1;
        assert(ps.take(i + 1).drop_last() =~= ps.take(i as int));
        assert(ps[i as int] == (key@, value@));
        if !str_equal(key, RESERVED_PARAM) {
            let trimmed = trim_str(key);
            let placeholder_key = to_underscores(trimmed.as_str());
            if !is_ascii_text(placeholder_key.as_str()) {
                let a = concat3("Invalid placeholder value for key '", key, "': must contain only ASCII characters.");
                proof {
                    let t = ps.take(i + 1);
                    assert(t.drop_last() =~= ps.take(i as int));
                    assert(t.last() == (key@, value@));
                    assert(apply_query(base, t) == Err::<Seq<(Seq<char>, Seq<char>)>, Seq<char>>(a@));
                    lemma_apply_query_fails_after(base, ps, (i + 1) as int, a@);
                    assert(apply_query(base, ps) == Err::<Seq<(Seq<char>, Seq<char>)>, Seq<char>>(a@));
                }
                return Err(a);
            }
            placeholders.insert(placeholder_key, value.clone());
        }
        i = i + 1;
    }
    assert(ps.take(i as int) =~= ps);
    Ok(placeholders)
}

/// Once applying a prefix fails, applying the whole list fails the same way.
proof fn lemma_apply_query_fails_after(
    m: Seq<(Seq<char>, Seq<char>)>,
    pairs: Seq<(Seq<char>, Seq<char>)>,
    n: int,
    e: Seq<char>,
)
    requires
        0 <= n <= pairs.len(),
        apply_query(m, pairs.take(n)) == Err::<Seq<(Seq<char>, Seq<char>)>, Seq<char>>(e),
    ensures
        apply_query(m, pairs) == Err::<Seq<(Seq<char>, Seq<char>)>, Seq<char>>(e),
    decreases pairs.len() - n,
{
    if n < pairs.len() {
        assert(pairs.take(n + 1).drop_last() =~= pairs.take(n));
        lemma_apply_query_fails_after(m, pairs, n + 1, e);
    } else {
        assert(pairs.take(n) =~= pairs);
    }
}

/// The name of the form field that carries the uploaded file.
pub const UPLOAD_FIELD: &'static str = "file";

/// Whether a form field carries the uploaded file.
pub fn is_upload_field(name: &str) -> (r: bool)
    ensures
        r == (name@ == UPLOAD_FIELD@),
{
    str_equal(name, UPLOAD_FIELD)
}

/// The file data of a multipart upload as it arrives, held to a size limit.
pub struct UploadBuffer {
    data: Vec<u8>,
    max_size: usize,
}

impl UploadBuffer {
    /// The data received never exceeds the limit.
    #[verifier::type_invariant]
    spec fn within_limit(self) -> bool {
        self.data@.len() <= self.max_size
    }

    /// The bytes received so far.
    pub closed spec fn received(&self) -> Seq<u8> {
        self.data@
    }

    /// The size limit.
    pub closed spec fn limit(&self) -> usize {
        self.max_size
    }

    /// An empty buffer for a file of at most `max_size` bytes.
    pub fn new(max_size: usize) -> (r: UploadBuffer)
        ensures
            r.received() == Seq::<u8>::empty(),
            r.limit() == max_size,
    {
        UploadBuffer { data: Vec::new(), max_size }
    }

    /// Adds a chunk of the file; fails, keeping what was received, when
    /// the file would exceed the size limit.
    pub fn append(&mut self, chunk: &[u8]) -> (r: Result<(), String>)
        ensures
            final(self).limit() == old(self).limit(),
            old(self).received().len() + chunk@.len() > old(self).limit() ==> (r matches Err(m)
                && m@ == "File size exceeds maximum allowed size of "@ + decimal(
                old(self).limit() as nat,
            ) + " bytes"@ && final(self).received() == old(self).received()),
            old(self).received().len() + chunk@.len() <= old(self).limit() ==> r is Ok
                && final(self).received() == old(self).received() + chunk@,
    {
        proof {
            use_type_invariant(&*self);
        }
        if chunk.len() > self.max_size - self.data.len() {
            let a = decimal_string(self.max_size as u64);
            return Err(concat3("File size exceeds maximum allowed size of ", a.as_str(), " bytes"));
        }
        let mut data: Vec<u8> = Vec::new();
        std::mem::swap(&mut data, &mut self.data);
        let ghost start = data@;
        let mut i: usize = 0;
        while i < chunk.len()
            invariant
                0 <= i <= chunk@.len(),
                data@ == start + chunk@.take(i as int),
            decreases chunk@.len() - i,
        {
            data.push(chunk[i]);
            i = i + 1;
            assert(data@ =~= start + chunk@.take(i as int));
        }
        assert(chunk@.take(i as int) =~= chunk@);
        self.data = data;
        Ok(())
    }

    /// The uploaded file; fails when no data arrived.
    pub fn finish(self) -> (r: Result<Vec<u8>, String>)
        ensures
            self.received().len() == 0 ==> (r matches Err(m) && m@
                == "No file uploaded. Use 'file' as the form field name."@),
            self.received().len() > 0 ==> (r matches Ok(d) && d@ == self.received()),
    {
        if self.data.len() == 0 {
            return Err("No file uploaded. Use 'file' as the form field name.".to_owned());
        }
        Ok(self.data)
    }
}

/// Builds the processing configuration from the server settings and the
/// placeholders: the processing limits and flags come from the settings,
/// the text extensions are the defaults.
pub fn build_placy_config(settings: &Settings, placeholders: PlaceholderMap) -> (r: Config)
    ensures
        r.placeholders@ == placeholders@,
        r.spec_text_extensions() == default_text_extensions(),
        r.max_file_size == settings.processing.max_file_size,
        r.max_file_count == settings.processing.max_file_count,
        r.max_zip_size == settings.processing.max_zip_size,
        r.max_compression_ratio == settings.processing.max_compression_ratio,
        r.delete_process_file == settings.processing.delete_process_file,
        r.delete_ignore_file == settings.processing.delete_ignore_file,
{
    Config::builder().with_placeholders(placeholders).with_max_file_size(
        settings.processing.max_file_size,
    ).with_max_file_count(settings.processing.max_file_count).with_max_zip_size(
        settings.processing.max_zip_size,
    ).with_max_compression_ratio(settings.processing.max_compression_ratio).with_delete_process_file(
        settings.processing.delete_process_file,
    ).with_delete_ignore_file(settings.processing.delete_ignore_file).build()
}

} // verus!
