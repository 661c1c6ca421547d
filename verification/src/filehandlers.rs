use crate::FqError;
use crate::fastq::FASTQ_PARQUET_LOG;
use crate::fragment::join_dir;
use crate::text::{
    lemma_prefix_len_until_is, lemma_split_on_len, lemma_split_peel, split_first, split_first_str,
    split_on, split_str, str_eq, str_views,
};
use file_lock::{FileLock, FileOptions};
use vstd::prelude::*;
use vstd::string::StrSliceExecFns;
use vstd::string::StringExecFns;

verus! {

/// The marker value a merge registration carries beside its fragment path.
pub const MERGED_MARKER: &'static str = "merged";

/// One ledger record: the key, a comma, the value, a newline.
pub open spec fn line_of(key: Seq<char>, value: Seq<char>) -> Seq<char> {
    key + seq![','] + value + seq!['\n']
}

/// `l` without one trailing carriage return, as text lines are read.
pub open spec fn strip_cr(l: Seq<char>) -> Seq<char> {
    if l.len() > 0 && l.last() == '\r' {
        l.drop_last()
    } else {
        l
    }
}

/// The lines of a text file: split on every newline, one trailing empty piece
/// (from a final newline) dropped, and one carriage return stripped from each
/// line's end.
pub open spec fn lines_of(content: Seq<char>) -> Seq<Seq<char>> {
    let raw = split_on(content, '\n');
    let kept = if raw.len() > 0 && raw.last().len() == 0 {
        raw.drop_last()
    } else {
        raw
    };
    kept.map_values(|l: Seq<char>| strip_cr(l))
}

/// One parsed ledger line: the part before the first comma is the key,
/// everything after it is the value; a line without a comma is malformed.
pub open spec fn parse_line(l: Seq<char>) -> Option<(Seq<char>, Seq<char>)> {
    split_first(l, ',')
}

/// All of a ledger's parsed entries, in file order; `None` when any line is
/// malformed, which is fatal to the whole load.
pub open spec fn parse_pairs_spec(content: Seq<char>) -> Option<Seq<(Seq<char>, Seq<char>)>> {
    let ls = lines_of(content);
    if forall|i: int| 0 <= i < ls.len() ==> (#[trigger] parse_line(ls[i])) is Some {
        Some(Seq::new(ls.len(), |i: int| parse_line(ls[i]).unwrap()))
    } else {
        None
    }
}

/// The views of a sequence of string pairs.
pub open spec fn pair_views(ps: Seq<(String, String)>) -> Seq<(Seq<char>, Seq<char>)> {
    ps.map_values(|p: (String, String)| (p.0@, p.1@))
}

/// The mapping a sequence of entries materializes to: the last writer wins
/// for a duplicate key.
pub open spec fn pairs_map(ps: Seq<(Seq<char>, Seq<char>)>) -> Map<Seq<char>, Seq<char>>
    decreases ps.len(),
{
    if ps.len() == 0 {
        Map::empty()
    } else {
        pairs_map(ps.drop_last()).insert(ps.last().0, ps.last().1)
    }
}

/// A key is in the materialized mapping exactly when some entry wrote it.
pub proof fn lemma_pairs_map_dom(ps: Seq<(Seq<char>, Seq<char>)>, k: Seq<char>)
    ensures
        pairs_map(ps).dom().contains(k) <==> exists|j: int|
            0 <= j < ps.len() && (#[trigger] ps[j]).0 == k,
    decreases ps.len(),
{
    if ps.len() > 0 {
        lemma_pairs_map_dom(ps.drop_last(), k);
        if ps.last().0 == k {
            assert(ps[ps.len() - 1].0 == k);
        } else if pairs_map(ps).dom().contains(k) {
            let j = choose|j: int| 0 <= j < ps.drop_last().len() && (#[trigger] ps.drop_last()[j]).0
                == k;
            assert(ps[j].0 == k);
        } else if exists|j: int| 0 <= j < ps.len() && (#[trigger] ps[j]).0 == k {
            let j = choose|j: int| 0 <= j < ps.len() && (#[trigger] ps[j]).0 == k;
            assert(ps.drop_last()[j].0 == k);
        }
    }
}

/// Last writer wins: an entry with no later entry of the same key gives that
/// key its value in the materialized mapping.
pub proof fn lemma_pairs_map_last(ps: Seq<(Seq<char>, Seq<char>)>, i: int)
    requires
        0 <= i < ps.len(),
        forall|j: int| i < j < ps.len() ==> (#[trigger] ps[j]).0 != ps[i].0,
    ensures
        pairs_map(ps).dom().contains(ps[i].0),
        pairs_map(ps)[ps[i].0] == ps[i].1,
    decreases ps.len(),
{
    if i == ps.len() - 1 {
    } else {
        assert(ps.drop_last()[i] == ps[i]);
        lemma_pairs_map_last(ps.drop_last(), i);
        assert(ps[ps.len() - 1].0 != ps[i].0);
    }
}

/// Writes one ledger record for `key` and `value`.
pub fn ledger_line(key: &str, value: &str) -> (r: String)
    ensures
        r@ == line_of(key@, value@),
{
    let mut r = String::from_str(key);
    r.append(",");
    r.append(value);
    r.append("\n");
    proof {
        reveal_strlit(",");
        reveal_strlit("\n");
        assert(key@ + ","@ + value@ + "\n"@ =~= line_of(key@, value@));
    }
    r
}

/// Parses a whole ledger: each line splits on its first comma, and one line
/// without a comma fails the whole load, as a well-formed log never holds
/// one.
pub fn parse_pairs(content: &str) -> (r: Result<Vec<(String, String)>, FqError>)
    ensures
        r is Ok <==> parse_pairs_spec(content@) is Some,
        r matches Ok(ps) ==> parse_pairs_spec(content@) == Some(pair_views(ps@)),
        r is Err ==> r == Err::<Vec<(String, String)>, FqError>(FqError::ParseError),
{
    let ghost ls = lines_of(content@);
    let mut lines = split_str(content, '\n');
    proof {
        lemma_split_on_len(content@, '\n');
    }
    if lines[lines.len() - 1].as_str().unicode_len() == 0 {
        let _ = lines.pop();
    }
    proof {
        assert(ls =~= str_views(lines@).map_values(|l: Seq<char>| strip_cr(l)));
    }
    let mut out: Vec<(String, String)> = Vec::new();
    let mut i: usize = 0;
    while i < lines.len()
        invariant
            0 <= i <= lines@.len(),
            ls == lines_of(content@),
            ls =~= str_views(lines@).map_values(|l: Seq<char>| strip_cr(l)),
            forall|j: int| 0 <= j < i ==> (#[trigger] parse_line(ls[j])) is Some,
            pair_views(out@) =~= Seq::new(i as nat, |j: int| parse_line(ls[j]).unwrap()),
        decreases lines@.len() - i,
    {
        let line = &lines[i];
        let n = line.as_str().unicode_len();
        let stripped: String = if n > 0 && line.as_str().get_char(n - 1) == '\r' {
            proof {
                assert(line@.drop_last() =~= line@.subrange(0, n - 1));
            }
            line.as_str().substring_char(0, n - 1).to_owned()
        } else {
            line.clone()
        };
        proof {
            assert(stripped@ == strip_cr(str_views(lines@)[i as int]));
            assert(stripped@ == ls[i as int]);
        }
        match split_first_str(stripped.as_str(), ',') {
            None => {
                proof {
                    assert(parse_line(ls[i as int]) is None);
                    assert(ls.len() == lines@.len());
                    assert(!(forall|j: int|
                        0 <= j < ls.len() ==> (#[trigger] parse_line(ls[j])) is Some));
                }
                return Err(FqError::ParseError);
            },
            Some((k, v)) => {
                let ghost prev = out@;
                out.push((k, v));
                proof {
                    assert(pair_views(out@) =~= pair_views(prev).push((k@, v@)));
                    assert(parse_line(ls[i as int]).unwrap() == (k@, v@));
                    assert(pair_views(out@) =~= Seq::new((i + 1) as nat, |j: int|
                        parse_line(ls[j]).unwrap()));
                }
            },
        }
        i = i + 1;
    }
    proof {
        assert(pair_views(out@) =~= Seq::new(ls.len(), |j: int| parse_line(ls[j]).unwrap()));
    }
    Ok(out)
}

fn find_key(out: &Vec<(String, String)>, key: &str) -> (r: Option<usize>)
    ensures
        r matches Some(j) ==> 0 <= j < out@.len() && out@[j as int].0@ == key@,
        r is None ==> forall|j: int| 0 <= j < out@.len() ==> (#[trigger] out@[j]).0@ != key@,
{
    let mut i: usize = 0;
    while i < out.len()
        invariant
            0 <= i <= out@.len(),
            forall|j: int| 0 <= j < i ==> (#[trigger] out@[j]).0@ != key@,
        decreases out@.len() - i,
    {
        if str_eq(out[i].0.as_str(), key) {
            return Some(i);
        }
        i = i + 1;
    }
    None
}

/// Overwriting the one entry that holds `key` changes the materialized
/// mapping exactly as inserting `key` anew does.
proof fn lemma_pairs_map_update(
    qs: Seq<(Seq<char>, Seq<char>)>,
    idx: int,
    key: Seq<char>,
    val: Seq<char>,
)
    requires
        0 <= idx < qs.len(),
        qs[idx].0 == key,
        forall|j: int| 0 <= j < qs.len() && j != idx ==> (#[trigger] qs[j]).0 != key,
    ensures
        pairs_map(qs.update(idx, (key, val))) =~= pairs_map(qs).insert(key, val),
    decreases qs.len(),
{
    let qs2 = qs.update(idx, (key, val));
    if idx == qs.len() - 1 {
        assert(qs2.drop_last() =~= qs.drop_last());
        assert(qs2.last() == (key, val));
        assert(pairs_map(qs.drop_last()).insert(key, qs.last().1).insert(key, val)
            =~= pairs_map(qs.drop_last()).insert(key, val));
    } else {
        assert(qs2.drop_last() =~= qs.drop_last().update(idx, (key, val)));
        assert(qs.drop_last()[idx] == qs[idx]);
        assert(forall|j: int|
            0 <= j < qs.drop_last().len() && j != idx ==> (#[trigger] qs.drop_last()[j]).0 != key);
        lemma_pairs_map_update(qs.drop_last(), idx, key, val);
        let l = qs.last();
        assert(qs2.last() == l);
        assert(l.0 != key);
        assert(pairs_map(qs.drop_last()).insert(key, val).insert(l.0, l.1)
            =~= pairs_map(qs.drop_last()).insert(l.0, l.1).insert(key, val));
    }
}

/// Materializes a list of entries into one entry per key, the last writer
/// winning, as the original log's consumers see it.
pub fn dedup_pairs(pairs: &Vec<(String, String)>) -> (r: Vec<(String, String)>)
    ensures
        pairs_map(pair_views(r@)) == pairs_map(pair_views(pairs@)),
        forall|i: int, j: int|
            0 <= i < j < r@.len() ==> (#[trigger] r@[i]).0@ != (#[trigger] r@[j]).0@,
{
    let mut out: Vec<(String, String)> = Vec::new();
    let mut i: usize = 0;
    proof {
        assert(pair_views(pairs@.take(0)) =~= pair_views(out@));
    }
    while i < pairs.len()
        invariant
            0 <= i <= pairs@.len(),
            pairs_map(pair_views(out@)) == pairs_map(pair_views(pairs@.take(i as int))),
            forall|a: int, b: int|
                0 <= a < b < out@.len() ==> (#[trigger] out@[a]).0@ != (#[trigger] out@[b]).0@,
        decreases pairs@.len() - i,
    {
        let k = pairs[i].0.clone();
        let v = pairs[i].1.clone();
        let ghost prev = out@;
        proof {
            assert(pair_views(pairs@.take(i + 1)).drop_last() =~= pair_views(
                pairs@.take(i as int),
            ));
            assert(pair_views(pairs@.take(i + 1)).last() == (k@, v@));
            assert(pair_views(pairs@.take(i + 1)).len() == i + 1);
        }
        match find_key(&out, k.as_str()) {
            Some(idx) => {
                let _ = out.remove(idx);
                out.insert(idx, (k, v));
                proof {
                    assert(out@ =~= prev.update(idx as int, out@[idx as int]));
                    assert(pair_views(out@) =~= pair_views(prev).update(idx as int, (k@, v@)));
                    lemma_pairs_map_update(pair_views(prev), idx as int, k@, v@);
                }
            },
            None => {
                out.push((k, v));
                proof {
                    assert(pair_views(out@).drop_last() =~= pair_views(prev));
                    assert(pair_views(out@).last() == (k@, v@));
                }
            },
        }
        i = i + 1;
    }
    proof {
        assert(pairs@.take(pairs@.len() as int) =~= pairs@);
    }
    out
}

/// Relies on file_lock::FileLock::lock — a blocking exclusive advisory lock
/// on the whole file at `path`, created if absent — and on
/// std::io::Write::write_all: the payload is appended at the file's end while
/// the lock is held, then the lock is released. Nothing is promised of the
/// file system afterwards.
#[verifier::external_body]
fn file_append(path: &str, payload: &str) -> bool {
    let options = FileOptions::new().write(true).create(true).append(true);
    let mut lock = match FileLock::lock(path, true, options) {
        Ok(l) => l,
        Err(_) => return false,
    };
    let outcome = std::io::Write::write_all(&mut lock.file, payload.as_bytes());
    let _ = lock.unlock();
    outcome.is_ok()
}

/// Relies on file_lock::FileLock::lock — the same blocking exclusive advisory
/// lock, creating the file if absent — and on std::io::Read::read_to_string:
/// the file's whole contents come back as text, whatever they are; nothing is
/// promised of them.
#[verifier::external_body]
fn read_file_content(path: &str) -> Option<String> {
    let options = FileOptions::new().read(true).create(true).append(true);
    let mut lock = match FileLock::lock(path, true, options) {
        Ok(l) => l,
        Err(_) => return None,
    };
    let mut buffer = String::new();
    let outcome = std::io::Read::read_to_string(&mut lock.file, &mut buffer);
    let _ = lock.unlock();
    match outcome {
        Ok(_) => Some(buffer),
        Err(_) => None,
    }
}

/// Appends one `(source path, fragment path)` record to the registration log
/// of `dir`, under the log's exclusive lock; the record is on disk before
/// this returns. A lock or write failure is the enclosing operation's
/// `IOError`.
pub fn register_fq_index_pair(dir: &str, src: &str, idx: &str) -> (r: Result<(), FqError>)
    ensures
        r is Err ==> r == Err::<(), FqError>(FqError::IOError),
{
    let log = join_dir(dir, FASTQ_PARQUET_LOG);
    let line = ledger_line(src, idx);
    if file_append(log.as_str(), line.as_str()) {
        Ok(())
    } else {
        Err(FqError::IOError)
    }
}

/// Loads the registration log of `dir` and materializes it as a mapping:
/// one entry per source path, the last writer winning. The log keeps every
/// appended line, so a stale duplicate registration is resolved here, not in
/// the file.
pub fn load_fq_index_pairs(dir: &str) -> (r: Result<Vec<(String, String)>, FqError>)
    ensures
        r matches Ok(ps) ==> forall|i: int, j: int|
            0 <= i < j < ps@.len() ==> (#[trigger] ps@[i]).0@ != (#[trigger] ps@[j]).0@,
        r is Err ==> r == Err::<Vec<(String, String)>, FqError>(FqError::IOError) || r == Err::<
            Vec<(String, String)>,
            FqError,
        >(FqError::ParseError),
{
    let log = join_dir(dir, FASTQ_PARQUET_LOG);
    let content = match read_file_content(log.as_str()) {
        Some(c) => c,
        None => return Err(FqError::IOError),
    };
    let pairs = match parse_pairs(content.as_str()) {
        Ok(p) => p,
        Err(e) => return Err(e),
    };
    Ok(dedup_pairs(&pairs))
}

/// Appends one `(fragment path, merged)` record to the merge-registration
/// ledger of `dir`, marking the fragment as folded into the reference
/// dataset.
pub fn register_parquet_merge(dir: &str, idx: &str) -> (r: Result<(), FqError>)
    ensures
        r is Err ==> r == Err::<(), FqError>(FqError::IOError),
{
    let log = join_dir(dir, crate::arrow::ARROW_PARQUET_LOG);
    let line = ledger_line(idx, MERGED_MARKER);
    if file_append(log.as_str(), line.as_str()) {
        Ok(())
    } else {
        Err(FqError::IOError)
    }
}

/// Loads the merge-registration ledger of `dir`: the set of fragment paths
/// already folded into the reference dataset, each once.
pub fn load_parquet_registrations(dir: &str) -> (r: Result<Vec<String>, FqError>)
    ensures
        r matches Ok(ks) ==> forall|i: int, j: int|
            0 <= i < j < ks@.len() ==> (#[trigger] ks@[i])@ != (#[trigger] ks@[j])@,
        r is Err ==> r == Err::<Vec<String>, FqError>(FqError::IOError) || r == Err::<
            Vec<String>,
            FqError,
        >(FqError::ParseError),
{
    let log = join_dir(dir, crate::arrow::ARROW_PARQUET_LOG);
    let content = match read_file_content(log.as_str()) {
        Some(c) => c,
        None => return Err(FqError::IOError),
    };
    let pairs = match parse_pairs(content.as_str()) {
        Ok(p) => p,
        Err(e) => return Err(e),
    };
    let deduped = dedup_pairs(&pairs);
    let mut keys: Vec<String> = Vec::new();
    let mut i: usize = 0;
    while i < deduped.len()
        invariant
            0 <= i <= deduped@.len(),
            keys@.len() == i,
            forall|j: int| 0 <= j < i ==> (#[trigger] keys@[j])@ == deduped@[j].0@,
            forall|a: int, b: int|
                0 <= a < b < deduped@.len() ==> (#[trigger] deduped@[a]).0@ != (
                #[trigger] deduped@[b]).0@,
        decreases deduped@.len() - i,
    {
        keys.push(deduped[i].0.clone());
        i = i + 1;
    }
    Ok(keys)
}


/// A well-formed ledger entry: no comma or line break in the key, no line
/// break in the value. The log's writers only ever emit such entries; a path
/// that holds a comma or a newline would corrupt the log, a documented
/// limitation of the line format.
pub open spec fn entry_wf(key: Seq<char>, value: Seq<char>) -> bool {
    &&& forall|i: int|
        0 <= i < key.len() ==> (#[trigger] key[i]) != ',' && key[i] != '\n' && key[i] != '\r'
    &&& forall|i: int| 0 <= i < value.len() ==> (#[trigger] value[i]) != '\n' && value[i] != '\r'
}

/// The body of one ledger record, without its newline.
pub open spec fn body_of(key: Seq<char>, value: Seq<char>) -> Seq<char> {
    key + seq![','] + value
}

/// A ledger file after a batch of appends, in the order the exclusive lock
/// serialized them.
pub open spec fn concat_lines(entries: Seq<(Seq<char>, Seq<char>)>) -> Seq<char>
    decreases entries.len(),
{
    if entries.len() == 0 {
        Seq::empty()
    } else {
        line_of(entries[0].0, entries[0].1) + concat_lines(entries.drop_first())
    }
}

proof fn lemma_lines_of_concat(entries: Seq<(Seq<char>, Seq<char>)>)
    requires
        forall|k: int| 0 <= k < entries.len() ==> entry_wf((#[trigger] entries[k]).0, entries[k].1),
    ensures
        lines_of(concat_lines(entries)) =~= entries.map_values(
            |e: (Seq<char>, Seq<char>)| body_of(e.0, e.1),
        ),
    decreases entries.len(),
{
    if entries.len() == 0 {
        assert(lines_of(concat_lines(entries)) =~= Seq::<Seq<char>>::empty());
    } else {
        let e0 = entries[0];
        let body0 = body_of(e0.0, e0.1);
        let rest = entries.drop_first();
        let rest_c = concat_lines(rest);
        assert(entry_wf(e0.0, e0.1));
        assert forall|i: int| 0 <= i < body0.len() implies body0[i] != '\n' by {
            if i < e0.0.len() {
                assert(e0.0[i] != '\n');
            } else if i > e0.0.len() {
                assert(e0.1[i - e0.0.len() - 1] != '\n');
            }
        }
        lemma_split_peel(body0, '\n', rest_c);
        assert(concat_lines(entries) =~= body0 + seq!['\n'] + rest_c);
        let raw = split_on(concat_lines(entries), '\n');
        let raw_r = split_on(rest_c, '\n');
        assert(raw =~~= seq![body0] + raw_r);
        lemma_split_on_len(rest_c, '\n');
        assert(forall|k: int| 0 <= k < rest.len() ==> rest[k] == entries[k + 1]);
        lemma_lines_of_concat(rest);
        assert(raw.last() == raw_r.last());
        // one trailing empty piece is dropped on both sides alike
        if raw_r.last().len() == 0 {
            assert(raw.drop_last() =~~= seq![body0] + raw_r.drop_last());
        }
        // the first record's body keeps no carriage return to strip
        assert(strip_cr(body0) =~= body0) by {
            if e0.1.len() > 0 {
                assert(body0.last() == e0.1.last());
                assert(e0.1[e0.1.len() - 1] != '\r');
            } else {
                assert(body0.last() == ',');
            }
        }
        assert(lines_of(concat_lines(entries)) =~= seq![body0] + lines_of(rest_c));
        assert(entries.map_values(|e: (Seq<char>, Seq<char>)| body_of(e.0, e.1)) =~= seq![body0]
            + rest.map_values(|e: (Seq<char>, Seq<char>)| body_of(e.0, e.1)));
    }
}

/// Log integrity: however the exclusive lock serialized a batch of appends,
/// the log file afterwards holds exactly one line per append, and a load
/// parses back exactly the appended entries, in file order. Materialized as a
/// mapping, every appended key is present; which value it carries is the last
/// one appended for it (`lemma_pairs_map_last`).
pub proof fn lemma_log_integrity(entries: Seq<(Seq<char>, Seq<char>)>)
    requires
        forall|k: int| 0 <= k < entries.len() ==> entry_wf((#[trigger] entries[k]).0, entries[k].1),
    ensures
        lines_of(concat_lines(entries)).len() == entries.len(),
        parse_pairs_spec(concat_lines(entries)) == Some(entries),
        forall|i: int|
            0 <= i < entries.len() ==> pairs_map(entries).dom().contains(
                (#[trigger] entries[i]).0,
            ),
{
    lemma_lines_of_concat(entries);
    let ls = lines_of(concat_lines(entries));
    assert forall|i: int| 0 <= i < ls.len() implies (#[trigger] parse_line(ls[i])) is Some
        && parse_line(ls[i]).unwrap() == entries[i] by {
        let e = entries[i];
        let body = body_of(e.0, e.1);
        assert(ls[i] == body);
        assert(entry_wf(e.0, e.1));
        assert forall|j: int| 0 <= j < e.0.len() implies body[j] != ',' by {
            assert(e.0[j] != ',');
        }
        assert(body[e.0.len() as int] == ',');
        lemma_prefix_len_until_is(body, ',', e.0.len() as int);
        assert(body.take(e.0.len() as int) =~= e.0);
        assert(body.skip(e.0.len() + 1 as int) =~= e.1);
        assert(parse_line(ls[i]).unwrap() == (e.0, e.1));
    }
    assert(Seq::new(ls.len(), |i: int| parse_line(ls[i]).unwrap()) =~= entries);
    assert forall|i: int| 0 <= i < entries.len() implies pairs_map(entries).dom().contains(
        (#[trigger] entries[i]).0,
    ) by {
        lemma_pairs_map_dom(entries, entries[i].0);
    }
}

} // verus!
