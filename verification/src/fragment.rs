use vstd::prelude::*;
use vstd::string::StringExecFns;

verus! {

/// Extension given to every fragment file.
pub const FRAGMENT_EXT: &'static str = ".parquet";

pub const FNV_OFFSET: u64 = 0xcbf29ce484222325;

pub const FNV_PRIME: u64 = 0x100000001b3;

/// One step of the 64-bit FNV-1a hash.
pub open spec fn fnv1a_step(h: u64, b: u8) -> u64 {
    vstd::wrapping::u64_specs::wrapping_mul(h ^ (b as u64), FNV_PRIME)
}

/// 64-bit FNV-1a over `bytes`, folded from the left starting at `h`.
pub open spec fn fnv1a_from(h: u64, bytes: Seq<u8>) -> u64
    decreases bytes.len(),
{
    if bytes.len() == 0 {
        h
    } else {
        fnv1a_from(fnv1a_step(h, bytes[0]), bytes.drop_first())
    }
}

/// 64-bit FNV-1a of a byte sequence.
pub open spec fn fnv1a(bytes: Seq<u8>) -> u64 {
    fnv1a_from(FNV_OFFSET, bytes)
}

/// The lower-case hexadecimal digit for a value below 16.
pub open spec fn hex_digit(d: u64) -> char {
    if d == 0 {
        '0'
    } else if d == 1 {
        '1'
    } else if d == 2 {
        '2'
    } else if d == 3 {
        '3'
    } else if d == 4 {
        '4'
    } else if d == 5 {
        '5'
    } else if d == 6 {
        '6'
    } else if d == 7 {
        '7'
    } else if d == 8 {
        '8'
    } else if d == 9 {
        '9'
    } else if d == 10 {
        'a'
    } else if d == 11 {
        'b'
    } else if d == 12 {
        'c'
    } else if d == 13 {
        'd'
    } else if d == 14 {
        'e'
    } else {
        'f'
    }
}

/// The sixteen hexadecimal digits of `h`, most significant first.
pub open spec fn hex64(h: u64) -> Seq<char> {
    Seq::new(16, |i: int| hex_digit((h >> (((15 - i) * 4) as u64)) & 0xf))
}

/// A directory path joined with a file name.
pub open spec fn join_path(dir: Seq<char>, name: Seq<char>) -> Seq<char> {
    dir + seq!['/'] + name
}

/// The file name of the fragment for a source path: a stable hash of the
/// path, then the fragment extension. Same source path, same name; distinct
/// paths collide only if their hashes do.
pub open spec fn fragment_name_spec(src: Seq<char>) -> Seq<char> {
    hex64(fnv1a(vstd::utf8::encode_utf8(src))) + FRAGMENT_EXT@
}

/// Where the fragment for source path `src` lives under directory `dir`.
pub open spec fn fragment_path_spec(dir: Seq<char>, src: Seq<char>) -> Seq<char> {
    join_path(dir, fragment_name_spec(src))
}

fn hex_digit_str(d: u64) -> (r: &'static str)
    requires
        d < 16,
    ensures
        r@ =~= seq![hex_digit(d)],
{
    proof {
        reveal_strlit("0");
        reveal_strlit("1");
        reveal_strlit("2");
        reveal_strlit("3");
        reveal_strlit("4");
        reveal_strlit("5");
        reveal_strlit("6");
        reveal_strlit("7");
        reveal_strlit("8");
        reveal_strlit("9");
        reveal_strlit("a");
        reveal_strlit("b");
        reveal_strlit("c");
        reveal_strlit("d");
        reveal_strlit("e");
        reveal_strlit("f");
    }
    match d {
        0 => "0",
        1 => "1",
        2 => "2",
        3 => "3",
        4 => "4",
        5 => "5",
        6 => "6",
        7 => "7",
        8 => "8",
        9 => "9",
        10 => "a",
        11 => "b",
        12 => "c",
        13 => "d",
        14 => "e",
        _ => "f",
    }
}

/// Writes `h` as sixteen lower-case hexadecimal digits.
pub fn hex64_str(h: u64) -> (r: String)
    ensures
        r@ =~= hex64(h),
{
    let mut out = String::new();
    let mut i: usize = 0;
    while i < 16
        invariant
            0 <= i <= 16,
            out@ =~= hex64(h).take(i as int),
        decreases 16 - i,
    {
        let shift: u64 = (15 - i as u64) * 4;
        let d = (h >> shift) & 0xf;
        proof {
            assert((h >> shift) & 0xf < 16) by (bit_vector);
        }
        out.append(hex_digit_str(d));
        proof {
            assert(hex64(h).take(i + 1 as int) =~= hex64(h).take(i as int) + seq![
                hex64(h)[i as int],
            ]);
        }
        i = i + 1;
    }
    proof {
        assert(hex64(h).take(16) =~= hex64(h));
    }
    out
}

/// 64-bit FNV-1a of the UTF-8 bytes of a string slice.
pub fn fnv1a_str(s: &str) -> (r: u64)
    ensures
        r == fnv1a(vstd::utf8::encode_utf8(s@)),
{
    let bytes = s.as_bytes();
    let mut h: u64 = FNV_OFFSET;
    let mut i: usize = 0;
    proof {
        assert(bytes@.skip(0) =~= bytes@);
    }
    while i < bytes.len()
        invariant
            0 <= i <= bytes@.len(),
            fnv1a_from(h, bytes@.skip(i as int)) == fnv1a(bytes@),
        decreases bytes@.len() - i,
    {
        let b = bytes[i];
        proof {
            assert(bytes@.skip(i as int).drop_first() =~= bytes@.skip(i + 1 as int));
            assert(bytes@.skip(i as int)[0] == bytes@[i as int]);
        }
        h = (h ^ (b as u64)).wrapping_mul(FNV_PRIME);
        i = i + 1;
    }
    proof {
        assert(bytes@.skip(bytes@.len() as int) =~= Seq::<u8>::empty());
    }
    h
}

/// The fragment file name for a source path, as `fragment_name_spec` says.
pub fn fragment_file_name(fq_path: &str) -> (r: String)
    ensures
        r@ == fragment_name_spec(fq_path@),
{
    let h = fnv1a_str(fq_path);
    let mut name = hex64_str(h);
    name.append(FRAGMENT_EXT);
    name
}

/// Joins a directory and a file name with a single separator.
pub fn join_dir(dir: &str, name: &str) -> (r: String)
    ensures
        r@ == join_path(dir@, name@),
{
    let mut r = String::from_str(dir);
    r.append("/");
    r.append(name);
    proof {
        reveal_strlit("/");
        assert(dir@ + "/"@ + name@ =~= join_path(dir@, name@));
    }
    r
}

/// The fragment path for source path `fq_path` under directory `dir`.
pub fn get_fragment_path(fq_path: &str, dir: &str) -> (r: String)
    ensures
        r@ == fragment_path_spec(dir@, fq_path@),
{
    let name = fragment_file_name(fq_path);
    join_dir(dir, name.as_str())
}

/// What one indexing run does, decided from the source path, the working
/// directory, and whether the source and the fragment already exist on disk.
pub enum IndexAction {
    /// The source file is missing: report it, touch nothing.
    NotFound,
    /// The fragment is already on disk: reuse it without any recomputation.
    AlreadyIndexed(String),
    /// Decode the source and write the fragment at the carried path.
    Build(String),
}

/// Decides an indexing run. The two booleans are the caller's observations of
/// the file system; the returned action carries the deterministic fragment
/// path whenever the source exists.
pub fn index_fastq_action(fq_path: &str, dir: &str, source_exists: bool, fragment_exists: bool) -> (r:
    IndexAction)
    ensures
        !source_exists ==> r is NotFound,
        source_exists && fragment_exists ==> (r matches IndexAction::AlreadyIndexed(p) && p@
            == fragment_path_spec(dir@, fq_path@)),
        source_exists && !fragment_exists ==> (r matches IndexAction::Build(p) && p@
            == fragment_path_spec(dir@, fq_path@)),
{
    if !source_exists {
        IndexAction::NotFound
    } else {
        let dest = get_fragment_path(fq_path, dir);
        if fragment_exists {
            IndexAction::AlreadyIndexed(dest)
        } else {
            IndexAction::Build(dest)
        }
    }
}

/// The fragments on disk after one indexing run: a successful run adds the
/// one deterministic fragment path for its source, a rejected run adds
/// nothing.
pub open spec fn fragments_after(
    fragments: Set<Seq<char>>,
    dir: Seq<char>,
    src: Seq<char>,
    source_exists: bool,
) -> Set<Seq<char>> {
    if source_exists {
        fragments.insert(fragment_path_spec(dir, src))
    } else {
        fragments
    }
}

/// Whether an indexing run over `fragments` decodes the source at all.
pub open spec fn index_recomputes(
    fragments: Set<Seq<char>>,
    dir: Seq<char>,
    src: Seq<char>,
    source_exists: bool,
) -> bool {
    source_exists && !fragments.contains(fragment_path_spec(dir, src))
}

/// Idempotence of indexing: once a source file has been indexed into a
/// directory, indexing it again names the same fragment, changes nothing on
/// disk, and performs no recomputation.
pub proof fn lemma_index_idempotent(fragments: Set<Seq<char>>, dir: Seq<char>, src: Seq<char>)
    ensures
        fragments_after(fragments_after(fragments, dir, src, true), dir, src, true)
            =~= fragments_after(fragments, dir, src, true),
        !index_recomputes(fragments_after(fragments, dir, src, true), dir, src, true),
{
}

} // verus!
