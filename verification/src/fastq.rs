use crate::FqError;
use crate::text::{
    lemma_split_on_len, split_first, split_first_str, split_on, split_str, str_eq, str_views,
};
use vstd::prelude::*;
use vstd::string::StrSliceExecFns;
use vstd::string::StringExecFns;

verus! {

/// Name of the registration-log file inside a working directory.
pub const FASTQ_PARQUET_LOG: &'static str = "fq_index_pair.txt";

/// Whether `c` has the Unicode white-space property, the set that numeric
/// field values are trimmed of before parsing.
pub open spec fn is_space_char(c: char) -> bool {
    ||| 0x9 <= c as int <= 0xd
    ||| c as int == 0x20
    ||| c as int == 0x85
    ||| c as int == 0xa0
    ||| c as int == 0x1680
    ||| 0x2000 <= c as int <= 0x200a
    ||| c as int == 0x2028
    ||| c as int == 0x2029
    ||| c as int == 0x202f
    ||| c as int == 0x205f
    ||| c as int == 0x3000
}

fn is_space(c: char) -> (r: bool)
    ensures
        r == is_space_char(c),
{
    let u = c as u32;
    (0x9 <= u && u <= 0xd) || u == 0x20 || u == 0x85 || u == 0xa0 || u == 0x1680 || (0x2000 <= u
        && u <= 0x200a) || u == 0x2028 || u == 0x2029 || u == 0x202f || u == 0x205f || u == 0x3000
}

/// The length of the white-space run at the front of `s`.
pub open spec fn ws_prefix(s: Seq<char>) -> int
    decreases s.len(),
{
    if s.len() == 0 || !is_space_char(s[0]) {
        0
    } else {
        1 + ws_prefix(s.drop_first())
    }
}

/// The length of the white-space run at the back of `s`.
pub open spec fn ws_suffix(s: Seq<char>) -> int
    decreases s.len(),
{
    if s.len() == 0 || !is_space_char(s.last()) {
        0
    } else {
        1 + ws_suffix(s.drop_last())
    }
}

/// `s` without leading and trailing white space.
pub open spec fn trim_spec(s: Seq<char>) -> Seq<char> {
    if ws_prefix(s) == s.len() {
        Seq::<char>::empty()
    } else {
        s.subrange(ws_prefix(s), s.len() - ws_suffix(s))
    }
}

proof fn lemma_ws_prefix_is(s: Seq<char>, i: int)
    requires
        0 <= i <= s.len(),
        forall|j: int| 0 <= j < i ==> is_space_char(s[j]),
        i < s.len() ==> !is_space_char(s[i]),
    ensures
        ws_prefix(s) == i,
    decreases s.len(),
{
    if s.len() != 0 && is_space_char(s[0]) {
        lemma_ws_prefix_is(s.drop_first(), i - 1);
    }
}

proof fn lemma_ws_suffix_is(s: Seq<char>, i: int)
    requires
        0 <= i <= s.len(),
        forall|j: int| s.len() - i <= j < s.len() ==> is_space_char(s[j]),
        i < s.len() ==> !is_space_char(s[s.len() - i - 1]),
    ensures
        ws_suffix(s) == i,
    decreases s.len(),
{
    if s.len() != 0 && is_space_char(s.last()) {
        lemma_ws_suffix_is(s.drop_last(), i - 1);
    }
}

/// Trims white space from both ends, as `trim_spec` says.
pub fn trim_str(s: &str) -> (r: String)
    ensures
        r@ == trim_spec(s@),
{
    let n = s.unicode_len();
    let mut a: usize = 0;
    while a < n && is_space(s.get_char(a))
        invariant
            0 <= a <= n,
            n == s@.len(),
            forall|j: int| 0 <= j < a ==> is_space_char(s@[j]),
        decreases n - a,
    {
        a = a + 1;
    }
    if a == n {
        proof {
            lemma_ws_prefix_is(s@, n as int);
        }
        return String::new();
    }
    proof {
        lemma_ws_prefix_is(s@, a as int);
    }
    let mut b: usize = n;
    while b > a && is_space(s.get_char(b - 1))
        invariant
            a <= b <= n,
            n == s@.len(),
            !is_space_char(s@[a as int]),
            forall|j: int| b <= j < n ==> is_space_char(s@[j]),
        decreases b,
    {
        b = b - 1;
    }
    proof {
        lemma_ws_suffix_is(s@, (n - b) as int);
    }
    s.substring_char(a, b).to_owned()
}

/// Whether `c` is an ASCII decimal digit.
pub open spec fn is_digit(c: char) -> bool {
    0x30 <= c as int <= 0x39
}

/// The value of an ASCII decimal digit.
pub open spec fn digit_val(c: char) -> nat {
    (c as int - 0x30) as nat
}

/// The number written by a sequence of decimal digits, most significant
/// first.
pub open spec fn digits_val(s: Seq<char>) -> nat
    decreases s.len(),
{
    if s.len() == 0 {
        0
    } else {
        digits_val(s.drop_last()) * 10 + digit_val(s.last())
    }
}

/// A longer digit string never writes a smaller number.
proof fn lemma_digits_val_prefix_le(s: Seq<char>, k: int)
    requires
        0 <= k <= s.len(),
    ensures
        digits_val(s.take(k)) <= digits_val(s),
    decreases s.len() - k,
{
    if k < s.len() {
        assert(s.take(k + 1).drop_last() =~= s.take(k));
        assert(digits_val(s.take(k)) <= digits_val(s.take(k + 1)));
        lemma_digits_val_prefix_le(s, k + 1);
    } else {
        assert(s.take(k) =~= s);
    }
}

/// The digit part of an unsigned numeral: everything after one optional
/// leading plus sign.
pub open spec fn numeral_digits(s: Seq<char>) -> Seq<char> {
    if s.len() > 0 && s[0] == '+' {
        s.drop_first()
    } else {
        s
    }
}

/// Whether `s` is a numeral that `u32` parsing accepts: an optional leading
/// plus sign, then at least one decimal digit, writing a value that fits.
pub open spec fn is_u32_numeral(s: Seq<char>) -> bool {
    let d = numeral_digits(s);
    &&& d.len() > 0
    &&& forall|i: int| 0 <= i < d.len() ==> is_digit(#[trigger] d[i])
    &&& digits_val(d) <= u32::MAX
}

/// The value a `u32` numeral writes.
pub open spec fn u32_numeral_val(s: Seq<char>) -> nat {
    digits_val(numeral_digits(s))
}

/// Parses `s` as a `u32` numeral; `None` exactly on the strings that are no
/// such numeral (empty, a stray character, or a value past `u32::MAX`).
pub fn parse_u32(s: &str) -> (r: Option<u32>)
    ensures
        r is Some <==> is_u32_numeral(s@),
        r matches Some(v) ==> v == u32_numeral_val(s@),
{
    let n = s.unicode_len();
    let start: usize = if n > 0 && s.get_char(0) == '+' {
        1
    } else {
        0
    };
    let ghost d = numeral_digits(s@);
    proof {
        assert(d =~= s@.subrange(start as int, n as int));
    }
    if start == n {
        return None;
    }
    let mut acc: u64 = 0;
    let mut i: usize = start;
    while i < n
        invariant
            start <= i <= n,
            n == s@.len(),
            d == numeral_digits(s@),
            d =~= s@.subrange(start as int, n as int),
            forall|j: int| 0 <= j < i - start ==> is_digit(#[trigger] d[j]),
            acc == digits_val(d.take(i - start)),
            acc <= u32::MAX,
        decreases n - i,
    {
        let c = s.get_char(i);
        let u = c as u32;
        if u < 0x30 || u > 0x39 {
            proof {
                assert(d[i - start] == s@[i as int]);
                assert(!is_digit(d[i - start]));
            }
            return None;
        }
        let dv: u64 = (u - 0x30) as u64;
        let next: u64 = acc * 10 + dv;
        proof {
            assert(d.take(i - start + 1).drop_last() =~= d.take(i - start));
            assert(d.take(i - start + 1).last() == d[i - start]);
            assert(d[i - start] == s@[i as int]);
        }
        if next > 0xffff_ffff {
            proof {
                lemma_digits_val_prefix_le(d, i - start + 1);
            }
            return None;
        }
        acc = next;
        i = i + 1;
    }
    proof {
        assert(d.take(n - start) =~= d);
    }
    Some(acc as u32)
}

/// One sequencing read's extracted attributes. Every optional field is absent
/// exactly when its key is missing from the read's header; that is normal,
/// not an error. The mean quality score is computed from the read's quality
/// bytes by the caller that owns the floating-point scorer and travels beside
/// this record, outside the verified core.
#[derive(Debug, Clone, PartialEq, Eq)]
pub struct FastqEntry {
    pub file_of_origin: Option<String>,
    pub accession: Option<String>,
    pub runid: Option<String>,
    pub read: Option<u32>,
    pub ch: Option<u32>,
    pub start_time: Option<String>,
    pub flow_cell_id: Option<String>,
    pub protocol_group_id: Option<String>,
    pub sample_id: Option<String>,
    pub parent_read_id: Option<String>,
    pub basecall_model_version_id: Option<String>,
}

impl Default for FastqEntry {
    fn default() -> (r: FastqEntry)
        ensures
            r.file_of_origin is None,
            r.accession is None,
            r.runid is None,
            r.read is None,
            r.ch is None,
            r.start_time is None,
            r.flow_cell_id is None,
            r.protocol_group_id is None,
            r.sample_id is None,
            r.parent_read_id is None,
            r.basecall_model_version_id is None,
    {
        FastqEntry {
            file_of_origin: None,
            accession: None,
            runid: None,
            read: None,
            ch: None,
            start_time: None,
            flow_cell_id: None,
            protocol_group_id: None,
            sample_id: None,
            parent_read_id: None,
            basecall_model_version_id: None,
        }
    }
}

impl FastqEntry {
    /// The short label the record prints as: the accession in parentheses, or
    /// a fixed marker when the accession is absent.
    pub fn display_label(&self) -> (r: String)
        ensures
            self.accession matches Some(a) ==> r@ == seq!['('] + a@ + seq![')'],
            self.accession is None ==> r@ == "fubar fastq"@,
    {
        match &self.accession {
            Some(x) => {
                let mut r = String::from_str("(");
                r.append(x.as_str());
                r.append(")");
                proof {
                    reveal_strlit("(");
                    reveal_strlit(")");
                    assert("("@ + x@ + ")"@ =~= seq!['('] + x@ + seq![')']);
                }
                r
            },
            None => String::from_str("fubar fastq"),
        }
    }
}

/// The fields of a read header: the header split on every single space.
pub open spec fn header_tokens(h: Seq<char>) -> Seq<Seq<char>> {
    split_on(h, ' ')
}

/// The metadata mapping written by a sequence of tokens: each token holding
/// `=` contributes the part before its first `=` as key and everything after
/// it as value, and the last occurrence of a duplicate key wins.
pub open spec fn meta_of(tokens: Seq<Seq<char>>) -> Map<Seq<char>, Seq<char>>
    decreases tokens.len(),
{
    if tokens.len() == 0 {
        Map::empty()
    } else {
        let m = meta_of(tokens.drop_last());
        match split_first(tokens.last(), '=') {
            Option::None => m,
            Option::Some(kv) => m.insert(kv.0, kv.1),
        }
    }
}

/// The metadata mapping of a read header.
pub open spec fn header_meta(h: Seq<char>) -> Map<Seq<char>, Seq<char>> {
    meta_of(header_tokens(h))
}

/// The accession id: the header's first token.
pub open spec fn header_accession(h: Seq<char>) -> Seq<char> {
    header_tokens(h)[0]
}

/// Whether an optional string field carries exactly the metadata value under
/// `key`, and is absent exactly when the key is.
pub open spec fn opt_field(m: Map<Seq<char>, Seq<char>>, key: Seq<char>, f: Option<String>) -> bool {
    match f {
        Option::Some(v) => m.dom().contains(key) && v@ == m[key],
        Option::None => !m.dom().contains(key),
    }
}

/// Whether an optional numeric field carries exactly the parsed metadata
/// value under `key`, and is absent exactly when the key is.
pub open spec fn opt_u32_field(m: Map<Seq<char>, Seq<char>>, key: Seq<char>, f: Option<u32>) -> bool {
    match f {
        Option::Some(n) => m.dom().contains(key) && is_u32_numeral(trim_spec(m[key])) && n
            == u32_numeral_val(trim_spec(m[key])),
        Option::None => !m.dom().contains(key),
    }
}

/// Whether the numeric metadata fields of a header, where present, are
/// well-formed `u32` numerals: exactly the headers extraction accepts.
pub open spec fn header_numeric_ok(h: Seq<char>) -> bool {
    let m = header_meta(h);
    &&& m.dom().contains("read"@) ==> is_u32_numeral(trim_spec(m["read"@]))
    &&& m.dom().contains("ch"@) ==> is_u32_numeral(trim_spec(m["ch"@]))
}

/// Whether `e` is exactly the record extracted from header `h` of a read in
/// file `file`.
pub open spec fn entry_matches(e: FastqEntry, file: Seq<char>, h: Seq<char>) -> bool {
    let m = header_meta(h);
    &&& (e.file_of_origin matches Some(f) && f@ == file)
    &&& (e.accession matches Some(a) && a@ == header_accession(h))
    &&& opt_field(m, "runid"@, e.runid)
    &&& opt_u32_field(m, "read"@, e.read)
    &&& opt_u32_field(m, "ch"@, e.ch)
    &&& opt_field(m, "start_time"@, e.start_time)
    &&& opt_field(m, "flow_cell_id"@, e.flow_cell_id)
    &&& opt_field(m, "protocol_group_id"@, e.protocol_group_id)
    &&& opt_field(m, "sample_id"@, e.sample_id)
    &&& opt_field(m, "parent_read_id"@, e.parent_read_id)
    &&& opt_field(m, "basecall_model_version_id"@, e.basecall_model_version_id)
}

/// Looks `key` up in the metadata written by `tokens`, last occurrence
/// winning.
pub fn pick_feature_str(tokens: &Vec<String>, key: &str) -> (r: Option<String>)
    ensures
        r is Some <==> meta_of(str_views(tokens@)).dom().contains(key@),
        r matches Some(v) ==> v@ == meta_of(str_views(tokens@))[key@],
{
    let ghost ts = str_views(tokens@);
    let mut cur: Option<String> = None;
    let mut i: usize = 0;
    proof {
        assert(ts.take(0int) =~= Seq::<Seq<char>>::empty());
    }
    while i < tokens.len()
        invariant
            0 <= i <= tokens@.len(),
            ts == str_views(tokens@),
            (cur is Some) == meta_of(ts.take(i as int)).dom().contains(key@),
            cur matches Some(v) ==> v@ == meta_of(ts.take(i as int))[key@],
        decreases tokens@.len() - i,
    {
        proof {
            assert(ts.take(i + 1).drop_last() =~= ts.take(i as int));
            assert(ts.take(i + 1).last() == tokens@[i as int]@);
        }
        match split_first_str(tokens[i].as_str(), '=') {
            Some((k, v)) => {
                if str_eq(k.as_str(), key) {
                    cur = Some(v);
                } else {
                    proof {
                        assert(meta_of(ts.take(i + 1)).dom() =~= meta_of(ts.take(i as int)).dom().insert(k@));
                    }
                }
            },
            None => {},
        }
        i = i + 1;
    }
    proof {
        assert(ts.take(tokens@.len() as int) =~= ts);
    }
    cur
}

/// Looks a numeric feature up: absent keys give `Ok(None)`; a present value
/// is trimmed and parsed, and a malformed one is this read's `ParseError`.
pub fn pick_feature_u32(tokens: &Vec<String>, key: &str) -> (r: Result<Option<u32>, FqError>)
    ensures
        ({
            let m = meta_of(str_views(tokens@));
            &&& !m.dom().contains(key@) ==> r == Ok::<Option<u32>, FqError>(None)
            &&& m.dom().contains(key@) && is_u32_numeral(trim_spec(m[key@])) ==> r == Ok::<
                Option<u32>,
                FqError,
            >(Some(u32_numeral_val(trim_spec(m[key@])) as u32))
            &&& m.dom().contains(key@) && !is_u32_numeral(trim_spec(m[key@])) ==> r == Err::<
                Option<u32>,
                FqError,
            >(FqError::ParseError)
        }),
{
    match pick_feature_str(tokens, key) {
        None => Ok(None),
        Some(v) => {
            let t = trim_str(v.as_str());
            match parse_u32(t.as_str()) {
                Some(n) => Ok(Some(n)),
                None => Err(FqError::ParseError),
            }
        },
    }
}

/// Extracts one read's record from its header text: the first token is the
/// accession, every `key=value` token feeds the metadata mapping (last
/// occurrence of a key wins), and the recognized keys fill the record's
/// fields. A present but malformed numeric field is a `ParseError` for this
/// one read.
pub fn parse_header(file_of_origin: &str, header: &str) -> (r: Result<FastqEntry, FqError>)
    ensures
        r is Ok <==> header_numeric_ok(header@),
        r matches Ok(e) ==> entry_matches(e, file_of_origin@, header@),
        r is Err ==> r == Err::<FastqEntry, FqError>(FqError::ParseError),
{
    let tokens = split_str(header, ' ');
    proof {
        lemma_split_on_len(header@, ' ');
        assert(str_views(tokens@) == header_tokens(header@));
    }
    let accession = tokens[0].clone();
    let read = match pick_feature_u32(&tokens, "read") {
        Ok(v) => v,
        Err(e) => return Err(e),
    };
    let ch = match pick_feature_u32(&tokens, "ch") {
        Ok(v) => v,
        Err(e) => return Err(e),
    };
    Ok(
        FastqEntry {
            file_of_origin: Some(file_of_origin.to_owned()),
            accession: Some(accession),
            runid: pick_feature_str(&tokens, "runid"),
            read,
            ch,
            start_time: pick_feature_str(&tokens, "start_time"),
            flow_cell_id: pick_feature_str(&tokens, "flow_cell_id"),
            protocol_group_id: pick_feature_str(&tokens, "protocol_group_id"),
            sample_id: pick_feature_str(&tokens, "sample_id"),
            parent_read_id: pick_feature_str(&tokens, "parent_read_id"),
            basecall_model_version_id: pick_feature_str(&tokens, "basecall_model_version_id"),
        },
    )
}

/// Relies on core::str::from_utf8: it succeeds exactly on valid UTF-8 input
/// and yields the decoded characters of that input.
#[verifier::external_body]
fn bytes_to_str(bytes: &[u8]) -> (r: Option<&str>)
    ensures
        r is Some <==> vstd::utf8::valid_utf8(bytes@),
        r matches Some(s) ==> s@ == vstd::utf8::decode_utf8(bytes@),
{
    core::str::from_utf8(bytes).ok()
}

/// Extracts one read's record from its raw header bytes: header bytes that
/// are not valid text are this read's `EncodingError`; otherwise the decoded
/// header is extracted as `parse_header` says.
pub fn extract_entry(file_of_origin: &str, header: &[u8]) -> (r: Result<FastqEntry, FqError>)
    ensures
        !vstd::utf8::valid_utf8(header@) ==> r == Err::<FastqEntry, FqError>(
            FqError::EncodingError,
        ),
        vstd::utf8::valid_utf8(header@) ==> ({
            let h = vstd::utf8::decode_utf8(header@);
            &&& (r is Ok <==> header_numeric_ok(h))
            &&& (r matches Ok(e) ==> entry_matches(e, file_of_origin@, h))
            &&& (r is Err ==> r == Err::<FastqEntry, FqError>(FqError::ParseError))
        }),
{
    match bytes_to_str(header) {
        Some(s) => parse_header(file_of_origin, s),
        None => Err(FqError::EncodingError),
    }
}

} // verus!
