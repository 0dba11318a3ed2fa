//! The request handlers: the per-route rules that turn plain request values
//! (a parsed id, the parts of a multipart body, the clock) into store calls
//! and map every outcome to an HTTP status and response payload. Transport
//! concerns — routing, multipart framing, JSON encoding — stay outside; the
//! handlers see only plain values.

use vstd::prelude::*;

use crate::store::{contains_id, index_of_id, record_of, total_size, ImageModel, Database, StoreError};
use crate::validate::{decodes_as_image, validate};

verus! {

/// The failures a request handler can report, mirrored to HTTP statuses.
#[derive(Clone, Copy, Debug, PartialEq, Eq, Structural)]
pub enum AppError {
    /// The uploaded bytes do not decode as a recognized image.
    InvalidImageFormat,
    /// The request itself is malformed: a multipart part without a usable
    /// field name.
    RequestError,
    /// Any other internal failure (a storage fault, a duplicate id).
    Unknown,
}

impl AppError {
    /// The HTTP status this error maps to.
    pub open spec fn spec_status(self) -> u16 {
        match self {
            AppError::InvalidImageFormat => 400,
            AppError::RequestError => 400,
            AppError::Unknown => 500,
        }
    }

    /// Maps an error to its HTTP status code: client faults are 400,
    /// internal faults are 500.
    pub fn status_code(&self) -> (r: u16)
        ensures
            r == self.spec_status(),
    {
        match self {
            AppError::InvalidImageFormat => 400,
            AppError::RequestError => 400,
            AppError::Unknown => 500,
        }
    }

    /// The message an error response carries in its JSON body.
    pub open spec fn spec_message(self) -> Seq<char> {
        match self {
            AppError::InvalidImageFormat => "Invalid Image Format"@,
            AppError::RequestError => "RequestError"@,
            AppError::Unknown => "Internal Server Error"@,
        }
    }

    /// Renders the error's message.
    pub fn message(&self) -> (r: String)
        ensures
            r@ == self.spec_message(),
    {
        match self {
            AppError::InvalidImageFormat => "Invalid Image Format".to_owned(),
            AppError::RequestError => "RequestError".to_owned(),
            AppError::Unknown => "Internal Server Error".to_owned(),
        }
    }
}

/// One part of a multipart body, reduced to plain values: its field name
/// (absent when the part carried no usable name) and its body chunks in
/// arrival order.
pub struct Part {
    pub name: Option<Vec<u8>>,
    pub chunks: Vec<Vec<u8>>,
}

/// The field name that carries the uploaded bytes: the ASCII bytes of
/// `file`.
pub open spec fn file_field_name() -> Seq<u8> {
    seq![102u8, 105u8, 108u8, 101u8]
}

/// Whether a part is named `file`.
pub open spec fn is_file_part(p: Part) -> bool {
    match p.name {
        Some(n) => n@ == file_field_name(),
        None => false,
    }
}

/// Whether some part lacks a usable field name.
pub open spec fn has_unnamed(parts: Seq<Part>) -> bool {
    exists|i: int| 0 <= i < parts.len() && parts[i].name is None
}

/// The bytes of a part, chunks concatenated in order.
pub open spec fn concat_chunks(chunks: Seq<Vec<u8>>) -> Seq<u8>
    decreases chunks.len(),
{
    if chunks.len() == 0 {
        Seq::empty()
    } else {
        concat_chunks(chunks.drop_last()) + chunks.last()@
    }
}

/// The uploaded bytes of a body: the chunks of every part named `file`,
/// concatenated in arrival order; parts under other names are ignored.
pub open spec fn file_data_of(parts: Seq<Part>) -> Seq<u8>
    decreases parts.len(),
{
    if parts.len() == 0 {
        Seq::empty()
    } else {
        file_data_of(parts.drop_last()) + (if is_file_part(parts.last()) {
            concat_chunks(parts.last().chunks@)
        } else {
            Seq::empty()
        })
    }
}

/// Whether this name is the `file` field name.
fn name_is_file(name: &Vec<u8>) -> (r: bool)
    ensures
        r == (name@ == file_field_name()),
{
    let r = name.len() == 4 && name[0] == 102 && name[1] == 105 && name[2] == 108
        && name[3] == 101;
    proof {
        if r {
            assert(name@ =~= file_field_name());
        }
    }
    r
}

/// Extracts the uploaded bytes from a multipart body: buffers the chunks of
/// every part named `file`, accepts and ignores parts under other names, and
/// rejects the request when any part lacks a usable field name.
pub fn collect_file_data(parts: &Vec<Part>) -> (r: Result<Vec<u8>, AppError>)
    ensures
        has_unnamed(parts@) ==> r == Err::<Vec<u8>, AppError>(AppError::RequestError),
        !has_unnamed(parts@) ==> (r matches Ok(v) && v@ == file_data_of(parts@)),
{
    let mut buf: Vec<u8> = Vec::new();
    let n = parts.len();
    let mut k: usize = 0;
    while k < n
        invariant
            n == parts@.len(),
            k <= n,
            forall|i: int| 0 <= i < k ==> !(parts@[i].name is None),
            buf@ == file_data_of(parts@.take(k as int)),
        decreases n - k,
    {
        let p = &parts[k];
        match &p.name {
            None => {
                proof {
                    assert(parts@[k as int].name is None);
                }
                return Err(AppError::RequestError);
            },
            Some(name) => {
                if name_is_file(name) {
                    let m = p.chunks.len();
                    let mut j: usize = 0;
                    while j < m
                        invariant
                            m == p.chunks@.len(),
                            j <= m,
                            buf@ == file_data_of(parts@.take(k as int)) + concat_chunks(
                                p.chunks@.take(j as int),
                            ),
                        decreases m - j,
                    {
                        let ghost pre = buf@;
                        buf.extend_from_slice(p.chunks[j].as_slice());
                        proof {
                            assert forall|i: int| 0 <= i < buf@.len() implies buf@[i] == (pre
                                + p.chunks@[j as int]@)[i] by {
                                if i >= pre.len() {
                                    assert(cloned::<u8>(p.chunks@[j as int]@[i - pre.len()], buf@[i]));
                                }
                            }
                            assert(buf@ =~= pre + p.chunks@[j as int]@);
                            assert(p.chunks@.take(j as int + 1).drop_last() =~= p.chunks@.take(
                                j as int));
                            assert(p.chunks@.take(j as int + 1).last() == p.chunks@[j as int]);
                            assert(buf@ =~= file_data_of(parts@.take(k as int)) + concat_chunks(
                                p.chunks@.take(j as int + 1)));
                        }
                        j = j + 1;
                    }
                    proof {
                        assert(p.chunks@.take(m as int) =~= p.chunks@);
                    }
                }
            },
        }
        proof {
            assert(parts@.take(k as int + 1).drop_last() =~= parts@.take(k as int));
            assert(parts@.take(k as int + 1).last() == parts@[k as int]);
            if !is_file_part(parts@[k as int]) {
                assert(buf@ =~= file_data_of(parts@.take(k as int + 1)));
            }
        }
        k = k + 1;
    }
    proof {
        assert(parts@.take(n as int) =~= parts@);
    }
    Ok(buf)
}

/// The payload of a successful upload: the new record's id and its size in
/// bytes.
#[derive(Clone, Copy, Debug, PartialEq, Eq, Structural)]
pub struct UploadOk {
    pub id: u128,
    pub size: usize,
}

/// Handles an upload: extracts the `file` part, accepts the bytes only when
/// they fully decode as an image, then inserts them under `id` with the given
/// timestamp. A malformed body or invalid image leaves the store unchanged
/// and reports a client fault; a duplicate id leaves the store unchanged and
/// reports an internal fault; otherwise the record is appended and its id and
/// size returned.
pub fn handle_upload(store: &mut Database, id: u128, parts: &Vec<Part>, date: u32) -> (r: Result<
    UploadOk,
    AppError,
>)
    ensures
        has_unnamed(parts@) ==> r == Err::<UploadOk, AppError>(AppError::RequestError)
            && final(store)@ == old(store)@,
        !has_unnamed(parts@) && !decodes_as_image(file_data_of(parts@)) ==> r == Err::<
            UploadOk,
            AppError,
        >(AppError::InvalidImageFormat) && final(store)@ == old(store)@,
        !has_unnamed(parts@) && decodes_as_image(file_data_of(parts@)) && contains_id(
            old(store)@,
            id,
        ) ==> r == Err::<UploadOk, AppError>(AppError::Unknown) && final(store)@ == old(store)@,
        !has_unnamed(parts@) && decodes_as_image(file_data_of(parts@)) && !contains_id(
            old(store)@,
            id,
        ) ==> (r matches Ok(u) && u.id == id && u.size == file_data_of(parts@).len()
            && final(store)@ == old(store)@.push(
                (ImageModel { id, data: file_data_of(parts@), date }),
            )),
{
    let data = match collect_file_data(parts) {
        Ok(d) => d,
        Err(e) => {
            return Err(e);
        },
    };
    match validate(data.as_slice()) {
        Ok(_) => {},
        Err(e) => {
            return Err(e);
        },
    }
    let size = data.len();
    match store.add(id, data, date) {
        Ok(_) => Ok(UploadOk { id, size }),
        Err(_) => Err(AppError::Unknown),
    }
}

/// A fetch outcome: the stored bytes with their creation timestamp, or a
/// "not found" signal with no body.
pub enum FetchResponse {
    Found { data: Vec<u8>, date: u32 },
    Missing,
}

/// Handles a fetch: on a hit returns the raw stored bytes and the creation
/// timestamp (carried to the client in a header); on a miss reports absence.
pub fn handle_get(store: &Database, id: u128) -> (r: FetchResponse)
    ensures
        !contains_id(store@, id) ==> r is Missing,
        contains_id(store@, id) ==> (r matches FetchResponse::Found { data, date }
            && record_of(store@, id) == Some((ImageModel { id, data: data@, date }))),
{
    match store.get(id) {
        Some(img) => {
            let data = img.data.clone();
            proof {
                assert forall|i: int| 0 <= i < data@.len() implies data@[i] == img.data@[i] by {
                    assert(cloned::<u8>(img.data@[i], data@[i]));
                }
                assert(data@ =~= img.data@);
                assert(record_of(store@, id).unwrap().id == id);
            }
            FetchResponse::Found { data, date: img.date }
        },
        None => FetchResponse::Missing,
    }
}

/// Handles a single delete: removes the record under `id` when present, and
/// maps the signal to a status — 200 when a record was removed, 404 when none
/// existed. Absence is never an error.
pub fn handle_delete(store: &mut Database, id: u128) -> (r: u16)
    ensures
        contains_id(old(store)@, id) ==> r == 200 && final(store)@ == old(store)@.remove(
            index_of_id(old(store)@, id),
        ),
        !contains_id(old(store)@, id) ==> r == 404 && final(store)@ == old(store)@,
{
    if store.delete(id) {
        200
    } else {
        404
    }
}

/// The aggregate summary a clear or stats request reports.
#[derive(Clone, Copy, Debug, PartialEq, Eq, Structural)]
pub struct Summary {
    pub total_items: usize,
    pub total_size_bytes: u128,
}

/// Handles a stats request: reports how many records the store holds and the
/// sum of their sizes, without touching them.
pub fn handle_stats(store: &Database) -> (r: Summary)
    ensures
        r.total_items == store@.len(),
        r.total_size_bytes == total_size(store@),
{
    let (total_items, total_size_bytes) = store.stats();
    Summary { total_items, total_size_bytes }
}

/// Handles a clear request: reports the aggregate summary of everything held,
/// then deletes all records.
pub fn handle_clear(store: &mut Database) -> (r: Summary)
    ensures
        r.total_items == old(store)@.len(),
        r.total_size_bytes == total_size(old(store)@),
        final(store)@ == Seq::<ImageModel>::empty(),
{
    let (total_items, total_size_bytes) = store.clear();
    Summary { total_items, total_size_bytes }
}

/// Maps a summary operation on a fallible backend to a response: a computed
/// aggregate is served with 200; any storage fault is deliberately collapsed
/// to an empty 404 rather than a 500.
pub fn summary_response(r: Result<Summary, StoreError>) -> (resp: (u16, Option<Summary>))
    ensures
        r matches Ok(s) ==> resp == (200u16, Some(s)),
        r is Err ==> resp == (404u16, Option::<Summary>::None),
{
    match r {
        Ok(s) => (200, Some(s)),
        Err(_) => (404, None),
    }
}

/// Whether a byte is an ASCII decimal digit.
pub open spec fn is_digit(c: u8) -> bool {
    48 <= c <= 57
}

/// Whether every byte is an ASCII decimal digit.
pub open spec fn all_digits(s: Seq<u8>) -> bool {
    forall|i: int| 0 <= i < s.len() ==> is_digit(s[i])
}

/// The value of a string of decimal digits.
pub open spec fn digits_value(s: Seq<u8>) -> int
    decreases s.len(),
{
    if s.len() == 0 {
        0
    } else {
        digits_value(s.drop_last()) * 10 + (s.last() - 48)
    }
}

/// The digits of a port string: an optional single leading `+` is accepted
/// and skipped, as a standard decimal parse does.
pub open spec fn port_digits(s: Seq<u8>) -> Seq<u8> {
    if s.len() > 0 && s[0] == 43 {
        s.subrange(1, s.len() as int)
    } else {
        s
    }
}

/// The default listen port.
pub open spec fn default_port() -> u16 {
    8000
}

/// The port a configuration string selects: its decimal value when it is a
/// non-empty all-digit string (after an optional leading `+`) naming a value
/// that fits a 16-bit port, and the default port otherwise.
pub open spec fn spec_port(s: Seq<u8>) -> u16 {
    let d = port_digits(s);
    if d.len() > 0 && all_digits(d) && digits_value(d) <= 65535 {
        digits_value(d) as u16
    } else {
        default_port()
    }
}

/// A string of digits is worth no less than any of its prefixes.
proof fn lemma_digits_value_prefix(d: Seq<u8>, m: int)
    requires
        0 <= m <= d.len(),
        all_digits(d),
    ensures
        digits_value(d.take(m)) <= digits_value(d),
        digits_value(d.take(m)) >= 0,
    decreases d.len() - m,
{
    if m == d.len() {
        assert(d.take(m) =~= d);
        lemma_digits_value_nonneg(d);
    } else {
        assert(d.take(m + 1).drop_last() =~= d.take(m));
        assert(d.take(m + 1).last() == d[m]);
        lemma_digits_value_nonneg(d.take(m));
        lemma_digits_value_prefix(d, m + 1);
    }
}

/// A string of digits has a non-negative value.
proof fn lemma_digits_value_nonneg(d: Seq<u8>)
    requires
        all_digits(d),
    ensures
        digits_value(d) >= 0,
    decreases d.len(),
{
    if d.len() > 0 {
        assert(all_digits(d.drop_last()));
        lemma_digits_value_nonneg(d.drop_last());
    }
}

/// Selects the listen port from the configured value, when one is set:
/// a value that parses as a 16-bit decimal port selects it, and anything
/// else — no value, an empty or malformed string, a value out of range —
/// falls back to the default port.
pub fn port_from(v: Option<&Vec<u8>>) -> (r: u16)
    ensures
        v is None ==> r == default_port(),
        v matches Some(b) ==> r == spec_port(b@),
{
    let b = match v {
        None => {
            return 8000;
        },
        Some(b) => b,
    };
    let n = b.len();
    let start: usize = if n > 0 && b[0] == 43 {
        1
    } else {
        0
    };
    let ghost d = port_digits(b@);
    proof {
        assert(d =~= b@.subrange(start as int, n as int));
    }
    if start == n {
        return 8000;
    }
    let mut acc: u32 = 0;
    let mut k: usize = start;
    while k < n
        invariant
            v == Some(b),
            start <= k <= n,
            n == b@.len(),
            d == port_digits(b@),
            d == b@.subrange(start as int, n as int),
            all_digits(b@.subrange(start as int, k as int)),
            acc == digits_value(b@.subrange(start as int, k as int)),
            acc <= 65535,
        decreases n - k,
    {
        let c = b[k];
        if c < 48 || c > 57 {
            proof {
                assert(d[k as int - start as int] == b@[k as int]);
                assert(!is_digit(d[k as int - start as int]));
                assert(!all_digits(d));
            }
            return 8000;
        }
        proof {
            assert(b@.subrange(start as int, k as int + 1).drop_last() =~= b@.subrange(
                start as int,
                k as int,
            ));
            assert(b@.subrange(start as int, k as int + 1).last() == b@[k as int]);
            assert(all_digits(b@.subrange(start as int, k as int + 1)));
        }
        let newacc = acc * 10 + (c - 48) as u32;
        proof {
            assert(digits_value(b@.subrange(start as int, k as int + 1)) == acc * 10 + (
            b@[k as int] - 48));
            assert(newacc == digits_value(b@.subrange(start as int, k as int + 1)));
        }
        if newacc > 65535 {
            proof {
                if all_digits(d) {
                    assert(d.take(k as int + 1 - start) =~= b@.subrange(
                        start as int,
                        k as int + 1,
                    ));
                    lemma_digits_value_prefix(d, k as int + 1 - start);
                    assert(digits_value(d) >= newacc);
                }
            }
            return 8000;
        }
        acc = newacc;
        k = k + 1;
    }
    proof {
        assert(b@.subrange(start as int, n as int) == d);
        assert(d.len() > 0);
    }
    acc as u16
}

} // verus!
