//! The CDX API: the query URL for a target, and the records in a CDX JSON table.

use vstd::prelude::*;
use crate::tasks::CdxRecord;
use crate::text;
use crate::text::str_contains;
use vstd::string::StringSliceAdditionalSpecFns;

verus! {

/// Bytes that `application/x-www-form-urlencoded` serialization keeps as they are:
/// `*`, `-`, `.`, `_`, ASCII digits and ASCII letters.
pub open spec fn byte_kept(b: u8) -> bool {
    b == 0x2a || b == 0x2d || b == 0x2e || b == 0x5f || (0x30 <= b <= 0x39) || (0x41 <= b <= 0x5a)
        || (0x61 <= b <= 0x7a)
}

/// The upper-case hexadecimal digit for `d < 16`.
pub open spec fn hex_digit(d: u8) -> char {
    if d < 10 {
        (d + 48) as char
    } else {
        (d + 55) as char
    }
}

/// The serialization of one byte: kept bytes as themselves, a space as `+`, any other
/// byte as `%` and two upper-case hexadecimal digits.
pub open spec fn urlencode_byte(b: u8) -> Seq<char> {
    if byte_kept(b) {
        seq![b as char]
    } else if b == 0x20 {
        seq!['+']
    } else {
        seq!['%', hex_digit(b / 16), hex_digit(b % 16)]
    }
}

/// The value of an upper-case hexadecimal digit character.
pub open spec fn hex_value(c: char) -> int {
    if (c as int) <= 57 {
        (c as int) - 48
    } else {
        (c as int) - 55
    }
}

/// A byte is serialized as itself when kept, as `+` when a space, and otherwise as `%`
/// followed by two upper-case hexadecimal digits that read back as the byte.
pub proof fn lemma_urlencode_byte_reads_back(b: u8)
    ensures
        byte_kept(b) ==> urlencode_byte(b) == seq![b as char],
        !byte_kept(b) && b == 0x20 ==> urlencode_byte(b) == seq!['+'],
        !byte_kept(b) && b != 0x20 ==> {
            let e = urlencode_byte(b);
            &&& e.len() == 3
            &&& e[0] == '%'
            &&& (48 <= (e[1] as int) <= 57 || 65 <= (e[1] as int) <= 70)
            &&& (48 <= (e[2] as int) <= 57 || 65 <= (e[2] as int) <= 70)
            &&& hex_value(e[1]) * 16 + hex_value(e[2]) == b
        },
{
    let hi = b / 16;
    let lo = b % 16;
    assert(b == hi * 16 + lo);
    assert((hex_digit(hi) as int) == if hi < 10 { hi + 48 } else { hi + 55 });
    assert((hex_digit(lo) as int) == if lo < 10 { lo + 48 } else { lo + 55 });
}

/// The serialization of a concatenation is the concatenation of the serializations.
pub proof fn lemma_urlencode_concat(a: Seq<u8>, b: Seq<u8>)
    ensures
        urlencode_bytes(a + b) == urlencode_bytes(a) + urlencode_bytes(b),
    decreases a.len(),
{
    if a.len() == 0 {
        assert(a + b =~= b);
    } else {
        lemma_urlencode_concat(a.drop_first(), b);
        assert((a + b).drop_first() =~= a.drop_first() + b);
        assert((a + b)[0] == a[0]);
    }
}

/// The `application/x-www-form-urlencoded` byte serialization of `bytes`.
pub open spec fn urlencode_bytes(bytes: Seq<u8>) -> Seq<char>
    decreases bytes.len(),
{
    if bytes.len() == 0 {
        Seq::empty()
    } else {
        urlencode_byte(bytes[0]) + urlencode_bytes(bytes.drop_first())
    }
}

/// Serializes the UTF-8 bytes of `input` with `url::form_urlencoded::byte_serialize`:
/// each byte encoded as `urlencode_byte` says, the pieces joined in order.
#[verifier::external_body]
fn form_urlencode(input: &str) -> (res: String)
    ensures
        res@ == urlencode_bytes(input.spec_bytes()),
{
    url::form_urlencoded::byte_serialize(input.as_bytes()).collect::<String>()
}

/// The CDX query URL for a target: the target itself when it already is a CDX search URL
/// (holds `web.archive.org/cdx/`), else a search for every capture under the domain with
/// the given MIME type, one result per URL key, as JSON.
pub open spec fn cdx_url(target: Seq<char>, mime_bytes: Seq<u8>) -> Seq<char> {
    if text::contains_chars(target, "web.archive.org/cdx/"@) {
        target
    } else {
        "http://web.archive.org/cdx/search/cdx?url="@ + target + "/*&filter=mimetype:"@
            + urlencode_bytes(mime_bytes) + "&collapse=urlkey&output=json"@
    }
}

/// A target that holds `web.archive.org/cdx/` anywhere (whatever scheme or prefix comes
/// before it) is queried as it is; any other target is put, whole, into a CDX search URL
/// after `url=`.
pub proof fn lemma_cdx_url_keeps_direct_queries(target: Seq<char>, mime_bytes: Seq<u8>)
    ensures
        text::contains_chars(target, "web.archive.org/cdx/"@) ==> cdx_url(target, mime_bytes) == target,
        !text::contains_chars(target, "web.archive.org/cdx/"@) ==> {
            let prefix = "http://web.archive.org/cdx/search/cdx?url="@;
            &&& cdx_url(target, mime_bytes).take(prefix.len() as int) == prefix
            &&& cdx_url(target, mime_bytes).subrange(prefix.len() as int, (prefix.len() + target.len()) as int)
                == target
        },
{
    let prefix = "http://web.archive.org/cdx/search/cdx?url="@;
    if !text::contains_chars(target, "web.archive.org/cdx/"@) {
        let u = cdx_url(target, mime_bytes);
        let rest = "/*&filter=mimetype:"@ + urlencode_bytes(mime_bytes) + "&collapse=urlkey&output=json"@;
        assert(u =~= prefix + target + rest);
        assert(u.take(prefix.len() as int) =~= prefix);
        assert(u.subrange(prefix.len() as int, (prefix.len() + target.len()) as int) =~= target);
    }
}

/// Builds the CDX API URL to query for `target_url` and `mime_type`.
pub fn cdx_query_url(target_url: &str, mime_type: &str) -> (res: String)
    ensures
        res@ == cdx_url(target_url@, mime_type.spec_bytes()),
        text::contains_chars(target_url@, "web.archive.org/cdx/"@) ==> res@ == target_url@,
        !text::contains_chars(target_url@, "web.archive.org/cdx/"@) ==> res@ == "http://web.archive.org/cdx/search/cdx?url="@
            + target_url@ + "/*&filter=mimetype:"@ + urlencode_bytes(mime_type.spec_bytes())
            + "&collapse=urlkey&output=json"@,
{
    if str_contains(target_url, "web.archive.org/cdx/") {
        return target_url.to_owned();
    }
    let encoded = form_urlencode(mime_type);
    let mut url = String::new();
    url.append("http://web.archive.org/cdx/search/cdx?url=");
    url.append(target_url);
    url.append("/*&filter=mimetype:");
    url.append(encoded.as_str());
    url.append("&collapse=urlkey&output=json");
    url
}

/// The characters of each cell of a row.
pub open spec fn row_chars(row: Seq<String>) -> Seq<Seq<char>> {
    row.map_values(|c: String| c@)
}

/// The characters of each cell of a table of rows.
pub open spec fn table_chars(table: Seq<Vec<String>>) -> Seq<Seq<Seq<char>>> {
    table.map_values(|r: Vec<String>| row_chars(r@))
}

/// What `serde_json::from_slice::<Vec<Vec<String>>>` makes of `body`: the table of
/// strings (by characters) it holds, or `None` when it is not a JSON array of arrays of
/// strings.
pub uninterp spec fn json_string_table(body: Seq<u8>) -> Option<Seq<Seq<Seq<char>>>>;

/// Parses `body` as a JSON array of arrays of strings with `serde_json::from_slice`. The
/// contract names the result: JSON's grammar is not restated here.
#[verifier::external_body]
fn parse_json_table(body: &[u8]) -> (res: Option<Vec<Vec<String>>>)
    ensures
        match res {
            Some(t) => json_string_table(body@) == Some(table_chars(t@)),
            None => json_string_table(body@) is None,
        },
{
    serde_json::from_slice::<Vec<Vec<String>>>(body).ok()
}

/// The value of the column named `field` among the first `n` columns of `row`: that of
/// the last such column the row reaches, or empty when there is none.
pub open spec fn column_value(header: Seq<Seq<char>>, row: Seq<Seq<char>>, field: Seq<char>, n: int) -> Seq<char>
    decreases n,
{
    if n <= 0 {
        Seq::empty()
    } else if n - 1 < row.len() && header[n - 1] == field {
        row[n - 1]
    } else {
        column_value(header, row, field, n - 1)
    }
}

/// A column's value comes from the last column, among the first `n` and those the row
/// reaches, whose header is `field`; it is empty when there is no such column.
pub proof fn lemma_column_value_is_last_match(header: Seq<Seq<char>>, row: Seq<Seq<char>>, field: Seq<char>, n: int)
    requires
        0 <= n <= header.len(),
    ensures
        forall|i: int|
            0 <= i < n && i < row.len() && #[trigger] header[i] == field && (forall|j: int|
                i < j < n && j < row.len() ==> header[j] != field) ==> column_value(header, row, field, n)
                == row[i],
        (forall|i: int| 0 <= i < n && i < row.len() ==> #[trigger] header[i] != field) ==> column_value(
            header,
            row,
            field,
            n,
        ) == Seq::<char>::empty(),
    decreases n,
{
    if n > 0 {
        lemma_column_value_is_last_match(header, row, field, n - 1);
        assert forall|i: int|
            0 <= i < n && i < row.len() && #[trigger] header[i] == field && (forall|j: int|
                i < j < n && j < row.len() ==> header[j] != field) implies column_value(header, row, field, n)
                == row[i] by {
            if i < n - 1 {
                assert(!(n - 1 < row.len() && header[n - 1] == field));
            }
        }
    }
}

/// The (original URL, timestamp, MIME type) of a CDX record.
pub open spec fn record_fields(r: CdxRecord) -> (Seq<char>, Seq<char>, Seq<char>) {
    (r.original@, r.timestamp@, r.mimetype@)
}

/// The records that the data rows `rows` give under `header`, in order: each row's
/// `original`, `timestamp` and `mimetype` columns, and only the rows where the first two
/// are not empty.
pub open spec fn rows_records(header: Seq<Seq<char>>, rows: Seq<Seq<Seq<char>>>) -> Seq<(Seq<char>, Seq<char>, Seq<char>)>
    decreases rows.len(),
{
    if rows.len() == 0 {
        Seq::empty()
    } else {
        let prev = rows_records(header, rows.drop_last());
        let row = rows.last();
        let o = column_value(header, row, "original"@, header.len() as int);
        let t = column_value(header, row, "timestamp"@, header.len() as int);
        let m = column_value(header, row, "mimetype"@, header.len() as int);
        if o.len() > 0 && t.len() > 0 {
            prev.push((o, t, m))
        } else {
            prev
        }
    }
}

/// The records of a CDX JSON table: its first row names the columns, the others hold
/// values; a table of one row or none holds no record.
pub open spec fn table_records(table: Seq<Seq<Seq<char>>>) -> Seq<(Seq<char>, Seq<char>, Seq<char>)> {
    if table.len() <= 1 {
        Seq::empty()
    } else {
        rows_records(table[0], table.drop_first())
    }
}

/// A data row gives a record: its `original` and `timestamp` columns are not empty.
pub open spec fn row_gives_record(header: Seq<Seq<char>>, row: Seq<Seq<char>>) -> bool {
    column_value(header, row, "original"@, header.len() as int).len() > 0 && column_value(
        header,
        row,
        "timestamp"@,
        header.len() as int,
    ).len() > 0
}

/// The (original, timestamp, mimetype) columns of a data row.
pub open spec fn row_columns(header: Seq<Seq<char>>, row: Seq<Seq<char>>) -> (Seq<char>, Seq<char>, Seq<char>) {
    (
        column_value(header, row, "original"@, header.len() as int),
        column_value(header, row, "timestamp"@, header.len() as int),
        column_value(header, row, "mimetype"@, header.len() as int),
    )
}

/// Every data row whose `original` and `timestamp` columns are not empty gives exactly
/// one record, whatever the other rows hold: the records are those rows, in order, each
/// read into its columns. So there are as many records as such rows, and record `i`
/// holds the columns of the `i`-th such row.
pub proof fn lemma_one_record_per_row(header: Seq<Seq<char>>, rows: Seq<Seq<Seq<char>>>)
    ensures
        rows_records(header, rows) == rows.filter(|r: Seq<Seq<char>>| row_gives_record(header, r)).map_values(
            |r: Seq<Seq<char>>| row_columns(header, r),
        ),
        rows_records(header, rows).len() == rows.filter(
            |r: Seq<Seq<char>>| row_gives_record(header, r),
        ).len(),
    decreases rows.len(),
{
    reveal_with_fuel(Seq::filter, 1);
    let pred = |r: Seq<Seq<char>>| row_gives_record(header, r);
    let cols = |r: Seq<Seq<char>>| row_columns(header, r);
    if rows.len() == 0 {
        assert(rows.filter(pred) =~= Seq::<Seq<Seq<char>>>::empty());
        assert(rows_records(header, rows) =~= rows.filter(pred).map_values(cols));
    } else {
        lemma_one_record_per_row(header, rows.drop_last());
        let sub = rows.drop_last().filter(pred);
        assert(rows.filter(pred) == if pred(rows.last()) { sub.push(rows.last()) } else { sub });
        if pred(rows.last()) {
            assert(sub.push(rows.last()).map_values(cols) =~= sub.map_values(cols).push(cols(rows.last())));
        }
    }
}

/// Reads the records out of a CDX JSON table (a list of rows of strings, the first row
/// naming the columns).
pub fn cdx_records(data: &Vec<Vec<String>>) -> (res: Vec<CdxRecord>)
    ensures
        res@.map_values(|r: CdxRecord| record_fields(r)) == table_records(table_chars(data@)),
        data@.len() > 1 ==> res@.map_values(|r: CdxRecord| record_fields(r)) == table_chars(
            data@,
        ).drop_first().filter(|r: Seq<Seq<char>>| row_gives_record(table_chars(data@)[0], r)).map_values(
            |r: Seq<Seq<char>>| row_columns(table_chars(data@)[0], r),
        ),
{
    let mut records: Vec<CdxRecord> = Vec::new();
    if data.len() <= 1 {
        assert(records@.map_values(|r: CdxRecord| record_fields(r)) =~= Seq::empty());
        return records;
    }
    let header = &data[0];
    let key_original = "original".to_owned();
    let key_timestamp = "timestamp".to_owned();
    let key_mimetype = "mimetype".to_owned();
    let ghost table = table_chars(data@);
    let ghost hc = table[0];
    let ghost rows = table.drop_first();
    let mut r: usize = 1;
    assert(rows.take(0) =~= Seq::<Seq<Seq<char>>>::empty());
    while r < data.len()
        invariant
            1 <= r <= data@.len(),
            table == table_chars(data@),
            rows == table.drop_first(),
            hc == table[0],
            hc == row_chars(header@),
            key_original@ == "original"@,
            key_timestamp@ == "timestamp"@,
            key_mimetype@ == "mimetype"@,
            records@.map_values(|x: CdxRecord| record_fields(x)) == rows_records(hc, rows.take(r - 1)),
        decreases data@.len() - r,
    {
        let row = &data[r];
        let ghost rc = row_chars(row@);
        assert(rc == table[r as int]);
        let mut original = String::new();
        let mut timestamp = String::new();
        let mut mimetype = String::new();
        let mut idx: usize = 0;
        while idx < header.len()
            invariant
                idx <= header@.len(),
                hc == row_chars(header@),
                rc == row_chars(row@),
                key_original@ == "original"@,
                key_timestamp@ == "timestamp"@,
                key_mimetype@ == "mimetype"@,
                original@ == column_value(hc, rc, "original"@, idx as int),
                timestamp@ == column_value(hc, rc, "timestamp"@, idx as int),
                mimetype@ == column_value(hc, rc, "mimetype"@, idx as int),
            decreases header@.len() - idx,
        {
            if idx < row.len() {
                assert(hc[idx as int] == header@[idx as int]@);
                assert(rc[idx as int] == row@[idx as int]@);
                if header[idx] == key_original {
                    original = row[idx].clone();
                }
                if header[idx] == key_timestamp {
                    timestamp = row[idx].clone();
                }
                if header[idx] == key_mimetype {
                    mimetype = row[idx].clone();
                }
            }
            idx = idx + 1;
        }
        let ghost prev = records@.map_values(|x: CdxRecord| record_fields(x));
        assert(rows.take(r as int).drop_last() =~= rows.take(r - 1));
        assert(rows.take(r as int).last() == rc);
        if !original.as_str().is_empty() && !timestamp.as_str().is_empty() {
            records.push(CdxRecord { original, timestamp, mimetype });
            assert(records@.map_values(|x: CdxRecord| record_fields(x)) =~= prev.push(
                record_fields(records@.last()),
            ));
        }
        r = r + 1;
    }
    assert(rows.take(r - 1) =~= rows);
    proof {
        lemma_one_record_per_row(hc, rows);
    }
    records
}

/// Why a CDX response gave no records.
#[derive(Debug, Clone, Copy, PartialEq, Eq)]
pub enum CdxError {
    /// The API answered with this HTTP status instead of 200.
    HttpStatus(u32),
    /// The body is not a JSON array of arrays of strings.
    InvalidJson,
}

/// The records of a CDX API response with HTTP status `status` and body `body`: an error
/// for a status other than 200 or a body that is not a JSON table of strings, else the
/// records that `cdx_records` reads from the table.
pub fn cdx_response_records(status: u32, body: &[u8]) -> (res: Result<Vec<CdxRecord>, CdxError>)
    ensures
        status != 200 ==> res == Err::<Vec<CdxRecord>, CdxError>(CdxError::HttpStatus(status)),
        status == 200 ==> match json_string_table(body@) {
            None => res == Err::<Vec<CdxRecord>, CdxError>(CdxError::InvalidJson),
            Some(t) => res matches Ok(v) && v@.map_values(|r: CdxRecord| record_fields(r))
                == table_records(t),
        },
{
    if status != 200 {
        return Err(CdxError::HttpStatus(status));
    }
    match parse_json_table(body) {
        Some(data) => Ok(cdx_records(&data)),
        None => Err(CdxError::InvalidJson),
    }
}

} // verus!
