//! Opening a file: the cached index where there is a valid one, a parse
//! otherwise, and the names of the files that are written meanwhile.
use vstd::prelude::*;

use crate::document::{Document, NodeRecord};
use crate::error::EngineError;
use crate::parser::{document, document_closed};
use crate::progress::ParseProgress;
use crate::sidecar::{
    fnv1a, fnv1a_hash, header_at, hex_string, hex_text, image, record_at, sidecar_fault,
    sidecar_round_trip, try_load_sidecar, utf8, utf8_of, write_sidecar,
};
use crate::text::{chars_of, decimal, decimal_text, digit_char};

verus! {

/// What the names of files that are still written end in.
pub const STREAMING_SUFFIX: &'static str = ".streaming.tmp";

/// What stands before that in the name of a file that takes keys.
pub const KEYS_SUFFIX: &'static str = ".keys";

/// How much of the source is parsed before its pages are given back.
pub const SOURCE_DROP_CHUNK: u64 = 268435456;

/// The index that a cache holds for a source of this size and time; none
/// where the cache is damaged or belongs to another source.
pub open spec fn cached_index(b: Seq<u8>, size: u64, mtime_ns: u64) -> Option<
    (Seq<NodeRecord>, Seq<u8>),
> {
    if sidecar_fault(b, size, mtime_ns) is Some {
        None
    } else {
        let h = header_at(b);
        Some(
            (
                Seq::new(h.node_count as nat, |i: int| record_at(b, h.records_offset + 48 * i)),
                b.subrange(h.keys_offset as int, h.keys_offset + h.keys_size),
            ),
        )
    }
}

/// A document, and the cache to write for it, if one is to be written.
pub struct Opened {
    pub document: Document,
    pub cache: Option<Vec<u8>>,
}

/// `o` was read from a cache.
pub open spec fn is_reopened(
    o: Opened,
    source: Seq<u8>,
    index: (Seq<NodeRecord>, Seq<u8>),
) -> bool {
    &&& o.document.source@ == source
    &&& o.document.records@ == index.0
    &&& o.document.keys@ == index.1
    &&& !o.document.parsed_this_session
    &&& o.cache is None
}

/// `o` was parsed. Its cache holds the index, unless there are too many
/// records for one.
pub open spec fn is_parsed(o: Opened, source: Seq<u8>, mtime_ns: u64) -> bool {
    &&& o.document.is_index_of(source)
    &&& if o.document.records@.len() <= u32::MAX {
        o.cache matches Some(b) && b@ == image(
            source.len() as u64,
            mtime_ns,
            o.document.records@,
            o.document.keys@,
        )
    } else {
        o.cache is None
    }
}

/// The index that is found in a cache, if one is.
pub open spec fn found_index(source: Seq<u8>, mtime_ns: u64, cache: Option<Seq<u8>>) -> Option<
    (Seq<NodeRecord>, Seq<u8>),
> {
    match cache {
        Some(b) => cached_index(b, source.len() as u64, mtime_ns),
        None => None,
    }
}

/// Opens the bytes of a file: with the index of a valid cache, and with a
/// parse otherwise.
pub fn open_document(
    source: Vec<u8>,
    mtime_ns: u64,
    cache: Option<&[u8]>,
    progress: &mut ParseProgress,
) -> (r: Result<Opened, EngineError>)
    ensures
        ({
            let c = match cache {
                Some(b) => Some(b@),
                None => None,
            };
            let size = source@.len() as u64;
            if source@.len() == 0 {
                r == Err::<Opened, EngineError>(EngineError::Empty) && *final(progress) == *old(
                    progress,
                )
            } else {
                match found_index(source@, mtime_ns, c) {
                    Some(index) => {
                        &&& r matches Ok(o) && is_reopened(o, source@, index)
                        &&& *final(progress) == (ParseProgress { parsed: size, total: size })
                    },
                    None => match document(source@) {
                        Ok(_) => {
                            &&& r matches Ok(o) && is_parsed(o, source@, mtime_ns)
                            &&& *final(progress) == (ParseProgress { parsed: size, total: size })
                        },
                        Err(f) => {
                            &&& r matches Err(e) && e.is_fault(f)
                            &&& final(progress).total == size
                            &&& final(progress).parsed == match document_closed(source@) {
                                Some(e) => e,
                                None => 0,
                            }
                        },
                    },
                }
            }
        }),
{
    let size: u64 = source.len() as u64;
    if size == 0 {
        return Err(EngineError::Empty);
    }
    if let Some(bytes) = cache {
        if let Ok(loaded) = try_load_sidecar(bytes, size, mtime_ns) {
            progress.reset_parse_progress(size);
            progress.finish_parse_progress();
            let records = loaded.records(bytes);
            let keys = loaded.keys(bytes);
            let document = Document::from_cache(source, records, keys);
            proof {
                let index = cached_index(bytes@, size, mtime_ns)->Some_0;
                assert(document.records@ =~= index.0);
                assert(document.keys@ =~= index.1);
            }
            return Ok(Opened { document, cache: None });
        }
    }
    progress.reset_parse_progress(size);
    match Document::open_reporting(source, progress) {
        Ok(document) => {
            progress.finish_parse_progress();
            let cache = if document.records.len() as u64 <= u32::MAX as u64 {
                Some(
                    write_sidecar(
                        size,
                        mtime_ns,
                        document.records.as_slice(),
                        document.keys.as_slice(),
                    ),
                )
            } else {
                None
            };
            Ok(Opened { document, cache })
        },
        Err(e) => Err(e),
    }
}

/// A file that was parsed is opened from its cache with the same index, as
/// long as its size and time are the same.
pub proof fn reopening_finds_the_index(source: Seq<u8>, mtime_ns: u64, o: Opened)
    requires
        is_parsed(o, source, mtime_ns),
        o.document.records@.len() <= u32::MAX,
        64 + 48 * o.document.records@.len() + o.document.keys@.len() <= u64::MAX,
    ensures
        o.cache matches Some(b) && found_index(source, mtime_ns, Some(b@)) == Some(
            (o.document.records@, o.document.keys@),
        ),
{
    sidecar_round_trip(
        source.len() as u64,
        mtime_ns,
        o.document.records@,
        o.document.keys@,
    );
}

/// A document that is opened from the cache of its own parse holds the index
/// that parsing would give, so what holds of parsed documents holds of it.
pub proof fn reopened_documents_are_indexed(
    source: Seq<u8>,
    mtime_ns: u64,
    parsed: Opened,
    again: Opened,
)
    requires
        is_parsed(parsed, source, mtime_ns),
        parsed.document.records@.len() <= u32::MAX,
        64 + 48 * parsed.document.records@.len() + parsed.document.keys@.len() <= u64::MAX,
        is_reopened(
            again,
            source,
            found_index(source, mtime_ns, Some(parsed.cache->0@))->0,
        ),
    ensures
        again.document.indexes(source),
{
    reopening_finds_the_index(source, mtime_ns, parsed);
}

/// The name of the files that a process writes while it opens a source:
/// after its cache where it has one, after its path otherwise.
pub open spec fn stem_text(cache_name: Option<Seq<char>>, source_path: Seq<char>, pid: u32) -> Seq<
    char,
> {
    match cache_name {
        Some(n) => n + "."@ + decimal_text(pid as nat),
        None => "bigjson-"@ + hex_text(fnv1a(utf8_of(source_path)) as int, 16) + "-"@
            + decimal_text(pid as nat),
    }
}

pub fn streaming_stem(cache_name: Option<&str>, source_path: &str, pid: u32) -> (s: String)
    ensures
        s@ == stem_text(
            match cache_name {
                Some(n) => Some(n@),
                None => None,
            },
            source_path@,
            pid,
        ),
{
    let id = decimal(pid as u64);
    match cache_name {
        Some(n) => {
            let mut s = n.to_owned();
            s.append(".");
            s.append(id.as_str());
            s
        },
        None => {
            let mut s = "bigjson-".to_owned();
            let bytes = utf8(source_path);
            let h = hex_string(fnv1a_hash(bytes.as_slice()));
            s.append(h.as_str());
            s.append("-");
            s.append(id.as_str());
            s
        },
    }
}

/// The name of the file that takes the records.
pub fn records_tmp_name(stem: &str) -> (s: String)
    ensures
        s@ == stem@ + STREAMING_SUFFIX@,
{
    let mut s = stem.to_owned();
    s.append(STREAMING_SUFFIX);
    s
}

/// The name of the file that takes the keys.
pub fn keys_tmp_name(stem: &str) -> (s: String)
    ensures
        s@ == stem@ + KEYS_SUFFIX@ + STREAMING_SUFFIX@,
{
    let mut s = stem.to_owned();
    s.append(KEYS_SUFFIX);
    s.append(STREAMING_SUFFIX);
    s
}

pub open spec fn is_separator(c: char) -> bool {
    c == '.' || c == '-'
}

/// What stands behind the last separator.
pub open spec fn last_part(s: Seq<char>) -> Seq<char>
    decreases s.len(),
{
    if s.len() > 0 && !is_separator(s.last()) {
        last_part(s.drop_last()).push(s.last())
    } else {
        Seq::empty()
    }
}

pub open spec fn all_digits(s: Seq<char>) -> bool {
    forall|i: int| 0 <= i < s.len() ==> '0' <= #[trigger] s[i] <= '9'
}

pub open spec fn digits_value(s: Seq<char>) -> nat
    decreases s.len(),
{
    if s.len() == 0 {
        0
    } else {
        10 * digits_value(s.drop_last()) + (s.last() as nat - '0' as nat) as nat
    }
}

/// The process id that a numeral spells; a plus sign may stand before it.
pub open spec fn pid_value(s: Seq<char>) -> Option<u32> {
    let t = if s.len() > 1 && s[0] == '+' {
        s.skip(1)
    } else {
        s
    };
    if t.len() > 0 && all_digits(t) && digits_value(t) <= u32::MAX {
        Some(digits_value(t) as u32)
    } else {
        None
    }
}

pub open spec fn ends(s: Seq<char>, p: Seq<char>) -> bool {
    p.len() <= s.len() && s.skip(s.len() - p.len()) == p
}

/// A text without an ending that it may have.
pub open spec fn without(s: Seq<char>, p: Seq<char>) -> Seq<char> {
    if ends(s, p) {
        s.take(s.len() - p.len())
    } else {
        s
    }
}

/// The process that wrote a file, by the file's name: of records or of keys.
pub open spec fn pid_of(name: Seq<char>) -> Option<u32> {
    if ends(name, STREAMING_SUFFIX@) {
        pid_value(last_part(without(without(name, STREAMING_SUFFIX@), KEYS_SUFFIX@)))
    } else {
        None
    }
}

fn has_suffix(a: &Vec<char>, n: usize, p: &Vec<char>) -> (b: bool)
    requires
        n <= a@.len(),
    ensures
        b == ends(a@.take(n as int), p@),
        b ==> p@.len() <= n,
{
    let ghost s = a@.take(n as int);
    let m: usize = p.len();
    if m > n {
        return false;
    }
    let mut i: usize = 0;
    while i < m
        invariant
            n <= a@.len(),
            s == a@.take(n as int),
            m == p@.len(),
            m <= n,
            i <= m,
            forall|k: int| 0 <= k < i ==> a@[n - m + k] == p@[k],
        decreases m - i,
    {
        if a[n - m + i] != p[i] {
            assert(s.skip(n - m)[i as int] != p@[i as int]);
            return false;
        }
        i += 1;
    }
    assert(s.skip(n - m) =~= p@);
    true
}

#[verifier::spinoff_prover]
fn read_pid(c: &Vec<char>, from: usize, to: usize) -> (r: Option<u32>)
    requires
        from <= to <= c@.len(),
    ensures
        r == pid_value(c@.subrange(from as int, to as int)),
{
    let ghost s = c@.subrange(from as int, to as int);
    let start: usize = if to - from > 1 && c[from] == '+' {
        from + 1
    } else {
        from
    };
    let ghost t = c@.subrange(start as int, to as int);
    proof {
        if start > from {
            assert(s.skip(1) =~= t);
        }
    }
    if start == to {
        return None;
    }
    let mut n: u64 = 0;
    let mut big = false;
    let mut i: usize = start;
    assert(t.take(0) =~= Seq::empty());
    while i < to
        invariant
            start <= i <= to <= c@.len(),
            t == c@.subrange(start as int, to as int),
            s == c@.subrange(from as int, to as int),
            t == if s.len() > 1 && s[0] == '+' {
                s.skip(1)
            } else {
                s
            },
            t.len() > 0,
            all_digits(t.take(i - start)),
            n <= u32::MAX,
            !big ==> n == digits_value(t.take(i - start)),
            big ==> digits_value(t.take(i - start)) > u32::MAX,
        decreases to - i,
    {
        let x: char = c[i];
        proof {
            let next = t.take(i + 1 - start);
            assert(next.drop_last() =~= t.take(i - start));
            assert(next.last() == x);
            assert(t[i - start] == x);
            assert forall|k: int| 0 <= k < next.len() && '0' <= x <= '9' implies '0'
                <= #[trigger] next[k] <= '9' by {
                if k < i - start {
                    assert(t.take(i - start)[k] == next[k]);
                }
            }
        }
        if x < '0' || x > '9' {
            return None;
        }
        if !big {
            let d: u64 = x as u64 - '0' as u64;
            let more: u64 = 10 * n + d;
            if more > u32::MAX as u64 {
                big = true;
            } else {
                n = more;
            }
        }
        i += 1;
    }
    assert(t.take(i - start) =~= t);
    if big {
        None
    } else {
        Some(n as u32)
    }
}

/// Reads the process id off a file name.
#[verifier::spinoff_prover]
pub fn parse_streaming_tmp_pid(name: &str) -> (r: Option<u32>)
    ensures
        r == pid_of(name@),
{
    let c = chars_of(name);
    let p = chars_of(STREAMING_SUFFIX);
    let k = chars_of(KEYS_SUFFIX);
    assert(c@.take(c@.len() as int) =~= name@);
    if !has_suffix(&c, c.len(), &p) {
        return None;
    }
    let whole: usize = c.len() - p.len();
    let n: usize = if has_suffix(&c, whole, &k) {
        whole - k.len()
    } else {
        whole
    };
    let ghost stem = name@.take(n as int);
    assert(stem =~= without(without(name@, STREAMING_SUFFIX@), KEYS_SUFFIX@));
    let mut i: usize = n;
    assert(stem.take(n as int) =~= stem);
    assert(c@.subrange(n as int, n as int) =~= Seq::empty());
    assert(last_part(stem) + Seq::<char>::empty() =~= last_part(stem));
    while i > 0 && c[i - 1] != '.' && c[i - 1] != '-'
        invariant
            i <= n <= c@.len(),
            c@ == name@,
            stem == name@.take(n as int),
            last_part(stem) == last_part(stem.take(i as int)) + c@.subrange(i as int, n as int),
        decreases i,
    {
        proof {
            let t = stem.take(i as int);
            assert(t.last() == c@[i - 1]);
            assert(t.drop_last() =~= stem.take(i - 1));
            let rest = last_part(stem.take(i - 1));
            assert(rest.push(c@[i - 1]) + c@.subrange(i as int, n as int) =~= rest + c@.subrange(
                i - 1,
                n as int,
            ));
        }
        i -= 1;
    }
    proof {
        let t = stem.take(i as int);
        if i > 0 {
            assert(t.last() == c@[i - 1]);
        }
        assert(last_part(t) =~= Seq::empty());
        assert(last_part(stem) =~= c@.subrange(i as int, n as int));
    }
    read_pid(&c, i, n)
}

/// Whether a file that a crashed process left behind is to be removed: it is
/// not ours, and its process is gone or unknown.
pub open spec fn stale(name: Seq<char>, our_pid: u32, alive: spec_fn(u32) -> bool) -> bool {
    ends(name, STREAMING_SUFFIX@) && match pid_of(name) {
        Some(p) => p != our_pid && !alive(p),
        None => true,
    }
}

/// What is to be done about a file in the work directory.
#[derive(Clone, Copy, Debug, PartialEq, Eq, Structural)]
pub enum Sweep {
    Keep,
    Remove,
    /// Remove the file if this process is gone.
    RemoveUnlessAlive(u32),
}

/// What a sweep does to a file, once it is known which processes live.
pub open spec fn removes(s: Sweep, alive: spec_fn(u32) -> bool) -> bool {
    match s {
        Sweep::Keep => false,
        Sweep::Remove => true,
        Sweep::RemoveUnlessAlive(p) => !alive(p),
    }
}

/// Decides about a file by its name.
pub fn sweep_of(name: &str, our_pid: u32) -> (s: Sweep)
    ensures
        forall|alive: spec_fn(u32) -> bool| #[trigger]
            removes(s, alive) == stale(name@, our_pid, alive),
{
    let c = chars_of(name);
    let p = chars_of(STREAMING_SUFFIX);
    assert(c@.take(c@.len() as int) =~= name@);
    if !has_suffix(&c, c.len(), &p) {
        return Sweep::Keep;
    }
    match parse_streaming_tmp_pid(name) {
        Some(pid) => if pid == our_pid {
            Sweep::Keep
        } else {
            Sweep::RemoveUnlessAlive(pid)
        },
        None => Sweep::Remove,
    }
}

proof fn decimal_reads_back(n: nat)
    ensures
        decimal_text(n).len() > 0,
        all_digits(decimal_text(n)),
        digits_value(decimal_text(n)) == n,
    decreases n,
{
    let t = decimal_text(n);
    if n < 10 {
        assert(t.drop_last() =~= Seq::empty());
        assert(digits_value(t.drop_last()) == 0);
        assert(digit_char(n) as nat == '0' as nat + n);
    } else {
        decimal_reads_back(n / 10);
        assert(t.drop_last() =~= decimal_text(n / 10));
        assert(digit_char(n % 10) as nat == '0' as nat + n % 10);
        assert forall|i: int| 0 <= i < t.len() implies '0' <= #[trigger] t[i] <= '9' by {
            if i < t.len() - 1 {
                assert(decimal_text(n / 10)[i] == t[i]);
            }
        }
    }
}

proof fn last_part_digits(head: Seq<char>, d: Seq<char>)
    requires
        head.len() > 0,
        is_separator(head.last()),
        all_digits(d),
    ensures
        last_part(head + d) == d,
    decreases d.len(),
{
    let s = head + d;
    if d.len() == 0 {
        assert(s =~= head);
    } else {
        assert(s.last() == d.last());
        assert('0' <= d[d.len() - 1] <= '9');
        assert(s.drop_last() =~= head + d.drop_last());
        assert forall|i: int| 0 <= i < d.drop_last().len() implies '0' <= #[trigger] d.drop_last()[i]
            <= '9' by {
            assert(d[i] == d.drop_last()[i]);
        }
        last_part_digits(head, d.drop_last());
        assert(d.drop_last().push(d.last()) =~= d);
    }
}

proof fn pid_reads_back(
    cache_name: Option<Seq<char>>,
    source_path: Seq<char>,
    pid: u32,
    tail: Seq<char>,
)
    requires
        tail == Seq::<char>::empty() || tail == KEYS_SUFFIX@,
    ensures
        pid_of(stem_text(cache_name, source_path, pid) + tail + STREAMING_SUFFIX@) == Some(pid),
        ends(
            stem_text(cache_name, source_path, pid) + tail + STREAMING_SUFFIX@,
            STREAMING_SUFFIX@,
        ),
{
    let d = decimal_text(pid as nat);
    let stem = stem_text(cache_name, source_path, pid);
    let front = stem + tail;
    let name = front + STREAMING_SUFFIX@;
    decimal_reads_back(pid as nat);
    reveal_strlit(".");
    reveal_strlit("-");
    reveal_strlit(".keys");
    let head = match cache_name {
        Some(n) => n + "."@,
        None => "bigjson-"@ + hex_text(fnv1a(utf8_of(source_path)) as int, 16) + "-"@,
    };
    assert(is_separator(head.last()));
    assert(stem =~= head + d);
    last_part_digits(head, d);
    assert(name.skip(name.len() - STREAMING_SUFFIX@.len()) =~= STREAMING_SUFFIX@);
    assert(without(name, STREAMING_SUFFIX@) =~= front);
    assert('0' <= d[d.len() - 1] <= '9');
    assert(stem.last() == d[d.len() - 1]);
    if tail == KEYS_SUFFIX@ {
        assert(front.skip(front.len() - tail.len()) =~= tail);
        assert(without(front, KEYS_SUFFIX@) =~= stem);
    } else {
        assert(front =~= stem);
        if ends(front, KEYS_SUFFIX@) {
            assert(front.skip(front.len() - 5)[4] == KEYS_SUFFIX@[4]);
            assert(false);
        }
        assert(without(front, KEYS_SUFFIX@) =~= stem);
    }
    assert(d[0] != '+');
}

/// The files of a process that lives, and those of the process that sweeps,
/// are never swept away: neither its records nor its keys.
pub proof fn live_files_are_kept(
    cache_name: Option<Seq<char>>,
    source_path: Seq<char>,
    pid: u32,
    our_pid: u32,
    alive: spec_fn(u32) -> bool,
)
    requires
        alive(pid) || pid == our_pid,
    ensures
        !stale(stem_text(cache_name, source_path, pid) + STREAMING_SUFFIX@, our_pid, alive),
        !stale(
            stem_text(cache_name, source_path, pid) + KEYS_SUFFIX@ + STREAMING_SUFFIX@,
            our_pid,
            alive,
        ),
{
    let stem = stem_text(cache_name, source_path, pid);
    pid_reads_back(cache_name, source_path, pid, Seq::empty());
    assert(stem + Seq::<char>::empty() =~= stem);
    pid_reads_back(cache_name, source_path, pid, KEYS_SUFFIX@);
}

/// A file whose name does not end like that of a temporary file is never
/// touched.
pub proof fn other_files_are_kept(name: Seq<char>, our_pid: u32, alive: spec_fn(u32) -> bool)
    requires
        !ends(name, STREAMING_SUFFIX@),
    ensures
        !stale(name, our_pid, alive),
{
}

/// The part of the source whose pages can be given back: once a chunk more
/// has been parsed, all whole pages before the parser.
pub fn pages_to_drop(parsed: u64, dropped: u64) -> (r: Option<(u64, u64)>)
    ensures
        ({
            let end = parsed - parsed % 4096;
            if parsed >= dropped + SOURCE_DROP_CHUNK && end > dropped {
                r == Some((dropped, (end - dropped) as u64))
            } else {
                r is None
            }
        }),
{
    if parsed < dropped || parsed - dropped < SOURCE_DROP_CHUNK {
        return None;
    }
    let end: u64 = parsed - parsed % 4096;
    if end > dropped {
        Some((dropped, end - dropped))
    } else {
        None
    }
}

} // verus!
