//! Hosted file inputs: inline base64 content or a file held by the Kovrex
//! file API, their display names, and how their bytes are obtained.
use vstd::prelude::*;

use base64::Engine;

use crate::error::{HostError, BAD_GATEWAY, BAD_REQUEST};

verus! {

/// A file given with a request: inline, base64-encoded, or by the id of a
/// file held by the Kovrex file API.
#[derive(Clone, Debug)]
pub enum FileInput {
    InlineBase64 { content_b64: String, filename: Option<String> },
    KovrexFile { file_id: String, filename: Option<String> },
}

/// What base64 decoding with the standard alphabet and required padding
/// gives for a text: the bytes, or the decoder's error as displayed.
pub uninterp spec fn base64_standard_decode(input: Seq<char>) -> Result<Seq<u8>, Seq<char>>;

/// `base64::engine::general_purpose::STANDARD.decode`, with its error
/// rendered by its `Display` impl.  The result is named, not stated: the
/// decoding rules take pages.
#[verifier::external_body]
fn decode_base64_standard(input: &str) -> (r: Result<Vec<u8>, String>)
    ensures
        match r {
            Ok(bytes) => base64_standard_decode(input@) == Ok::<Seq<u8>, Seq<char>>(bytes@),
            Err(text) => base64_standard_decode(input@) == Err::<Seq<u8>, Seq<char>>(text@),
        },
{
    match base64::engine::general_purpose::STANDARD.decode(input) {
        Ok(bytes) => Ok(bytes),
        Err(error) => Err(error.to_string()),
    }
}

/// How the bytes of an input are obtained.
#[derive(Clone, Debug)]
pub enum ByteSource {
    /// The bytes themselves.
    Loaded(Vec<u8>),
    /// To be fetched from the Kovrex file API under this id.
    Fetch(String),
}

/// The message for inline content that is not valid base64.
pub open spec fn invalid_base64_message(field_name: Seq<char>, error: Seq<char>) -> Seq<char> {
    "invalid base64 for '"@ + field_name + "': "@ + error
}

/// The name a report shows for an input.
pub open spec fn spec_display_name(input: FileInput, default_name: Seq<char>) -> Seq<char> {
    match input {
        FileInput::InlineBase64 { filename, .. } => match filename {
            Some(f) => f@,
            None => default_name,
        },
        FileInput::KovrexFile { file_id, filename } => match filename {
            Some(f) => f@,
            None => file_id@,
        },
    }
}

impl FileInput {
    /// The input's file name if it has one; otherwise the Kovrex file id, or
    /// `default_name` for inline content.
    pub fn display_name(&self, default_name: &str) -> (r: String)
        ensures
            r@ == spec_display_name(*self, default_name@),
    {
        match self {
            FileInput::InlineBase64 { filename, .. } => match filename {
                Some(f) => f.clone(),
                None => default_name.to_owned(),
            },
            FileInput::KovrexFile { file_id, filename } => match filename {
                Some(f) => f.clone(),
                None => file_id.clone(),
            },
        }
    }

    /// Where the input's bytes come from: inline content is decoded here
    /// (invalid base64 is a `400` naming `field_name`), a Kovrex file is
    /// left to be fetched.
    pub fn resolve_bytes(&self, field_name: &str) -> (r: Result<ByteSource, HostError>)
        ensures
            match *self {
                FileInput::InlineBase64 { content_b64, .. } => match base64_standard_decode(
                    content_b64@,
                ) {
                    Ok(bytes) => r matches Ok(ByteSource::Loaded(b)) && b@ == bytes,
                    Err(error) => r matches Err(e) && e.spec_status() == BAD_REQUEST
                        && e.spec_message() == invalid_base64_message(field_name@, error),
                },
                FileInput::KovrexFile { file_id, .. } => r matches Ok(ByteSource::Fetch(id))
                    && id@ == file_id@,
            },
    {
        match self {
            FileInput::InlineBase64 { content_b64, .. } => match decode_base64_standard(
                content_b64.as_str(),
            ) {
                Ok(bytes) => Ok(ByteSource::Loaded(bytes)),
                Err(error) => {
                    let mut message = "invalid base64 for '".to_owned();
                    message.append(field_name);
                    message.append("': ");
                    message.append(error.as_str());
                    Err(HostError::bad_request(message))
                },
            },
            FileInput::KovrexFile { file_id, .. } => Ok(ByteSource::Fetch(file_id.clone())),
        }
    }
}

/// `s` without its trailing slashes.
pub open spec fn trim_trailing_slashes(s: Seq<char>) -> Seq<char>
    decreases s.len(),
{
    if s.len() > 0 && s.last() == '/' {
        trim_trailing_slashes(s.drop_last())
    } else {
        s
    }
}

proof fn lemma_trim_trailing_slashes_at(s: Seq<char>, k: int)
    requires
        0 <= k <= s.len(),
        forall|j: int| k <= j < s.len() ==> #[trigger] s[j] == '/',
        k == 0 || s[k - 1] != '/',
    ensures
        trim_trailing_slashes(s) == s.subrange(0, k),
    decreases s.len() - k,
{
    if k == s.len() {
        assert(s.subrange(0, k) =~= s);
    } else {
        let t = s.drop_last();
        assert forall|j: int| k <= j < t.len() implies #[trigger] t[j] == '/' by {
            assert(t[j] == s[j]);
        }
        if k > 0 {
            assert(t[k - 1] == s[k - 1]);
        }
        lemma_trim_trailing_slashes_at(t, k);
        assert(t.subrange(0, k) =~= s.subrange(0, k));
    }
}

/// The address of a file in the Kovrex file API: the API base without its
/// trailing slashes, a slash, and the file id.
pub fn kovrex_file_url(api: &str, file_id: &str) -> (r: String)
    ensures
        r@ == trim_trailing_slashes(api@) + "/"@ + file_id@,
{
    let n = api.unicode_len();
    let mut k: usize = n;
    while k > 0 && api.get_char(k - 1) == '/'
        invariant
            n == api@.len(),
            k <= n,
            forall|j: int| k <= j < n ==> #[trigger] api@[j] == '/',
        decreases k,
    {
        k -= 1;
    }
    proof {
        lemma_trim_trailing_slashes_at(api@, k as int);
    }
    let mut url = api.substring_char(0, k).to_owned();
    url.append("/");
    url.append(file_id);
    url
}

/// Slashes at the end of the API base do not change a file's address.
pub proof fn lemma_kovrex_url_ignores_trailing_slash(api: Seq<char>)
    ensures
        trim_trailing_slashes(api.push('/')) == trim_trailing_slashes(api),
{
    assert(api.push('/').drop_last() =~= api);
}

/// A base without trailing slashes is kept whole, and any number of slashes
/// appended to it are all dropped.
pub proof fn lemma_trailing_slashes_dropped(api: Seq<char>, k: nat)
    requires
        api.len() == 0 || api.last() != '/',
    ensures
        trim_trailing_slashes(api + Seq::new(k, |i: int| '/')) == api,
    decreases k,
{
    let s = api + Seq::new(k, |i: int| '/');
    if k == 0 {
        assert(s =~= api);
    } else {
        assert(s.drop_last() =~= api + Seq::new((k - 1) as nat, |i: int| '/'));
        assert(s.last() == '/');
        lemma_trailing_slashes_dropped(api, (k - 1) as nat);
    }
}

/// Whether the Kovrex file API answered with a success status (`2xx`).
pub fn is_success_status(status: u16) -> (r: bool)
    ensures
        r == (200 <= status < 300),
{
    200 <= status && status < 300
}

/// The `502` error for a request to the Kovrex file API that could not be
/// sent.
pub fn fetch_send_error(file_id: &str, error: &str) -> (e: HostError)
    ensures
        e.spec_status() == BAD_GATEWAY,
        e.spec_message() == "failed to fetch Kovrex file '"@ + file_id@ + "': "@ + error@,
{
    let mut message = "failed to fetch Kovrex file '".to_owned();
    message.append(file_id);
    message.append("': ");
    message.append(error);
    HostError::bad_gateway(message)
}

/// The `502` error for an answer of the Kovrex file API without a success
/// status; `status` is the status as displayed (`404 Not Found`), `body` the
/// answer's text.
pub fn fetch_status_error(file_id: &str, status: &str, body: &str) -> (e: HostError)
    ensures
        e.spec_status() == BAD_GATEWAY,
        e.spec_message() == "Kovrex file API returned "@ + status@ + " for '"@ + file_id@
            + "': "@ + body@,
{
    let mut message = "Kovrex file API returned ".to_owned();
    message.append(status);
    message.append(" for '");
    message.append(file_id);
    message.append("': ");
    message.append(body);
    HostError::bad_gateway(message)
}

/// The `502` error for an answer of the Kovrex file API whose body could not
/// be read.
pub fn fetch_read_error(file_id: &str, error: &str) -> (e: HostError)
    ensures
        e.spec_status() == BAD_GATEWAY,
        e.spec_message() == "failed to read Kovrex file '"@ + file_id@ + "': "@ + error@,
{
    let mut message = "failed to read Kovrex file '".to_owned();
    message.append(file_id);
    message.append("': ");
    message.append(error);
    HostError::bad_gateway(message)
}

} // verus!
