//! Where the log of a session is written, and which old logs are removed.
use vstd::prelude::*;
use crate::text::{chars_eq, chars_of, extension_dot, last_dot, lemma_last_dot, push_char, push_str};

verus! {

/// How many log files are kept.
pub const MAX_LOG_FILES: usize = 10;

/// `logs/stamp.log`.
pub open spec fn spec_log_file_path(logs_path: Seq<char>, stamp: Seq<char>) -> Seq<char> {
    logs_path + seq!['/'] + stamp + seq!['.', 'l', 'o', 'g']
}

/// A listing of log files: each path with its modification time.
pub open spec fn listing(files: Seq<(String, u128)>) -> Seq<(Seq<char>, u128)> {
    files.map_values(|f: (String, u128)| (f.0@, f.1))
}

/// File `j` comes before file `i` when the newest come first: it is newer,
/// or as old and listed earlier (a stable sort).
pub open spec fn newer(fs: Seq<(Seq<char>, u128)>, j: int, i: int) -> bool {
    fs[j].1 > fs[i].1 || (fs[j].1 == fs[i].1 && j < i)
}

/// How many of the first `k` files come before file `i`.
pub open spec fn count_newer(fs: Seq<(Seq<char>, u128)>, i: int, k: int) -> nat
    decreases k,
{
    if k <= 0 {
        0
    } else {
        count_newer(fs, i, k - 1) + if newer(fs, k - 1, i) { 1nat } else { 0nat }
    }
}

/// The place of file `i` when the newest come first.
pub open spec fn rank(fs: Seq<(Seq<char>, u128)>, i: int) -> nat {
    count_newer(fs, i, fs.len() as int)
}

/// The paths among the first `k` files that do not fit in the `max` newest,
/// in listing order.
pub open spec fn victims(fs: Seq<(Seq<char>, u128)>, max: nat, k: int) -> Seq<Seq<char>>
    decreases k,
{
    if k <= 0 {
        Seq::empty()
    } else {
        victims(fs, max, k - 1) + if rank(fs, k - 1) >= max {
            seq![fs[k - 1].0]
        } else {
            Seq::<Seq<char>>::empty()
        }
    }
}

/// The log of one session.
#[derive(Clone, Debug)]
pub struct Logger {
    pub logs_path: String,
    pub current_log_path: String,
}

impl Logger {
    /// The log file of a session started at `stamp`: `logs_path/stamp.log`.
    pub fn log_file_path(logs_path: &str, stamp: &str) -> (r: String)
        ensures
            r@ == spec_log_file_path(logs_path@, stamp@),
    {
        let mut r = String::new();
        push_str(&mut r, logs_path);
        push_char(&mut r, '/');
        push_str(&mut r, stamp);
        push_char(&mut r, '.');
        push_char(&mut r, 'l');
        push_char(&mut r, 'o');
        push_char(&mut r, 'g');
        assert(r@ =~= spec_log_file_path(logs_path@, stamp@));
        r
    }

    /// The logger of a session started at `stamp`, writing under `logs_path`.
    pub fn for_session(logs_path: &str, stamp: &str) -> (r: Logger)
        ensures
            r.logs_path@ == logs_path@,
            r.current_log_path@ == spec_log_file_path(logs_path@, stamp@),
    {
        Logger { logs_path: String::from_str(logs_path), current_log_path: Self::log_file_path(logs_path, stamp) }
    }

    /// The log files to remove so that only the `max_files` newest stay: a
    /// file goes when at least `max_files` files come before it, newest first,
    /// files of the same age in listing order.
    pub fn rotation_victims(files: &Vec<(String, u128)>, max_files: usize) -> (r: Vec<String>)
        ensures
            r@.map_values(|s: String| s@) == victims(listing(files@), max_files as nat, files@.len() as int),
    {
        let ghost fs = listing(files@);
        let n = files.len();
        let mut r: Vec<String> = Vec::new();
        let mut i: usize = 0;
        while i < n
            invariant
                n == files@.len(),
                fs == listing(files@),
                i <= n,
                r@.map_values(|s: String| s@) == victims(fs, max_files as nat, i as int),
            decreases n - i,
        {
            let mut c: usize = 0;
            let mut j: usize = 0;
            while j < n
                invariant
                    n == files@.len(),
                    fs == listing(files@),
                    i < n,
                    j <= n,
                    c == count_newer(fs, i as int, j as int),
                    c <= j,
                decreases n - j,
            {
                let (ref pj, tj) = files[j];
                let (ref pi, ti) = files[i];
                assert(fs[j as int] == (pj@, tj) && fs[i as int] == (pi@, ti));
                if tj > ti || (tj == ti && j < i) {
                    c = c + 1;
                }
                j = j + 1;
            }
            let ghost before = r@.map_values(|s: String| s@);
            if c >= max_files {
                r.push(files[i].0.clone());
                assert(r@.map_values(|s: String| s@) =~= before.push(fs[i as int].0));
            }
            assert(r@.map_values(|s: String| s@) =~= victims(fs, max_files as nat, i + 1));
            i = i + 1;
        }
        r
    }
}

proof fn lemma_count_newer_bound(fs: Seq<(Seq<char>, u128)>, i: int, k: int)
    requires
        0 <= i,
        0 <= k,
    ensures
        count_newer(fs, i, k) + (if i < k { 1int } else { 0int }) <= k,
    decreases k,
{
    if k > 0 {
        lemma_count_newer_bound(fs, i, k - 1);
    }
}

proof fn lemma_no_victims(fs: Seq<(Seq<char>, u128)>, max: nat, k: int)
    requires
        0 <= k <= fs.len(),
        fs.len() <= max,
    ensures
        victims(fs, max, k) == Seq::<Seq<char>>::empty(),
    decreases k,
{
    if k > 0 {
        lemma_no_victims(fs, max, k - 1);
        lemma_count_newer_bound(fs, k - 1, fs.len() as int);
        assert(victims(fs, max, k) =~= Seq::<Seq<char>>::empty());
    }
}

/// While there are no more than `max` logs, rotation removes none.
pub proof fn law_rotation_keeps_few(fs: Seq<(Seq<char>, u128)>, max: nat)
    requires
        fs.len() <= max,
    ensures
        victims(fs, max, fs.len() as int) == Seq::<Seq<char>>::empty(),
{
    lemma_no_victims(fs, max, fs.len() as int);
}

/// The newest log is never removed while at least one is kept.
pub proof fn law_rotation_keeps_newest(fs: Seq<(Seq<char>, u128)>, i: int)
    requires
        0 <= i < fs.len(),
        forall|j: int| 0 <= j < fs.len() ==> !newer(fs, j, i),
    ensures
        rank(fs, i) == 0,
{
    lemma_count_zero(fs, i, fs.len() as int);
}

proof fn lemma_count_zero(fs: Seq<(Seq<char>, u128)>, i: int, k: int)
    requires
        0 <= k <= fs.len(),
        forall|j: int| 0 <= j < fs.len() ==> !newer(fs, j, i),
    ensures
        count_newer(fs, i, k) == 0,
    decreases k,
{
    if k > 0 {
        lemma_count_zero(fs, i, k - 1);
    }
}

/// The text that `b` encodes, where it is valid UTF-8.
pub open spec fn utf8_text(b: Seq<u8>) -> Option<Seq<char>> {
    if vstd::utf8::valid_utf8(b) {
        Some(vstd::utf8::decode_utf8(b))
    } else {
        None
    }
}

/// Calls `std::str::from_utf8`: the text that `b` encodes, or `None` where
/// it is not valid UTF-8 (claimed: std's rule is vstd's `valid_utf8`, with no
/// overlong encodings and no surrogates, and its decoding vstd's `decode_utf8`).
#[verifier::external_body]
fn decode_utf8(b: &[u8]) -> (r: Option<String>)
    ensures
        r is Some == vstd::utf8::valid_utf8(b@),
        r matches Some(t) ==> t@ == vstd::utf8::decode_utf8(b@),
{
    std::str::from_utf8(b).ok().map(|t| t.to_string())
}

/// Position of the first line feed in `b` at or after `i`, or `b.len()`.
pub open spec fn next_newline(b: Seq<u8>, i: int) -> int
    decreases b.len() - i,
{
    if i >= b.len() {
        b.len() as int
    } else if b[i] == 10u8 {
        i
    } else {
        next_newline(b, i + 1)
    }
}

/// The lines of `b` from position `i` on, as std's `BufRead::lines` gives
/// them: split at each line feed, which is dropped together with a carriage
/// return just before it; a last line without a line feed keeps all its bytes.
pub open spec fn lines_from(b: Seq<u8>, i: int) -> Seq<Seq<u8>>
    decreases b.len() + 1 - i,
{
    if i < 0 || i >= b.len() {
        Seq::empty()
    } else {
        proof {
            lemma_next_newline(b, i);
        }
        let e = next_newline(b, i);
        let raw = b.subrange(i, e);
        let line = if e < b.len() && raw.len() > 0 && raw.last() == 13u8 {
            raw.drop_last()
        } else {
            raw
        };
        seq![line] + lines_from(b, e + 1)
    }
}

pub proof fn lemma_next_newline(b: Seq<u8>, i: int)
    requires
        0 <= i <= b.len(),
    ensures
        i <= next_newline(b, i) <= b.len(),
        forall|j: int| i <= j < next_newline(b, i) ==> b[j] != 10u8,
        next_newline(b, i) < b.len() ==> b[next_newline(b, i)] == 10u8,
    decreases b.len() - i,
{
    if i < b.len() && b[i] != 10u8 {
        lemma_next_newline(b, i + 1);
    }
}

/// The last of `lines` that decodes as UTF-8, decoded.
pub open spec fn last_decoded(lines: Seq<Seq<u8>>) -> Option<Seq<char>>
    decreases lines.len(),
{
    if lines.len() == 0 {
        None
    } else {
        match utf8_text(lines.last()) {
            Some(t) => Some(t),
            None => last_decoded(lines.drop_last()),
        }
    }
}

/// The last line of a log's contents that reads as text (see [`lines_from`]
/// and [`last_decoded`]).
pub fn last_line(bytes: &[u8]) -> (r: Option<String>)
    ensures
        match r {
            Some(t) => last_decoded(lines_from(bytes@, 0)) == Some(t@),
            None => last_decoded(lines_from(bytes@, 0)) is None,
        },
{
    let n = bytes.len();
    let ghost all = lines_from(bytes@, 0);
    let ghost mut seen: Seq<Seq<u8>> = Seq::empty();
    let mut best: Option<String> = None;
    let mut start: usize = 0;
    while start < n
        invariant
            n == bytes@.len(),
            start <= n,
            all == lines_from(bytes@, 0),
            all == seen + lines_from(bytes@, start as int),
            match best {
                Some(t) => last_decoded(seen) == Some(t@),
                None => last_decoded(seen) is None,
            },
        decreases n - start,
    {
        let mut e = start;
        while e < n && bytes[e] != 10u8
            invariant
                start <= e <= n,
                n == bytes@.len(),
                next_newline(bytes@, start as int) == next_newline(bytes@, e as int),
            decreases n - e,
        {
            e = e + 1;
        }
        let mut stop = e;
        if e < n && stop > start && bytes[stop - 1] == 13u8 {
            stop = stop - 1;
        }
        let mut line: Vec<u8> = Vec::new();
        let mut k = start;
        while k < stop
            invariant
                start <= k <= stop <= n,
                n == bytes@.len(),
                line@ == bytes@.subrange(start as int, k as int),
            decreases stop - k,
        {
            line.push(bytes[k]);
            k = k + 1;
        }
        let decoded = decode_utf8(line.as_slice());
        proof {
            lemma_next_newline(bytes@, start as int);
            let raw = bytes@.subrange(start as int, e as int);
            assert(e < n ==> stop < e || stop == e);
            if stop < e {
                assert(line@ =~= raw.drop_last());
            } else {
                assert(line@ =~= raw);
            }
            assert(lines_from(bytes@, start as int) == seq![line@] + lines_from(bytes@, e + 1));
            assert(seen.push(line@) + lines_from(bytes@, e + 1) =~= seen + (seq![line@] + lines_from(bytes@, e + 1)));
            assert(seen.push(line@).drop_last() =~= seen);
            seen = seen.push(line@);
        }
        match decoded {
            Some(t) => {
                best = Some(t);
            },
            None => {},
        }
        start = if e < n { e + 1 } else { n };
    }
    proof {
        assert(seen + lines_from(bytes@, start as int) =~= seen);
    }
    best
}

/// A file that log rotation counts: its name has the extension `log` (see
/// [`last_dot`]), exactly.
pub open spec fn is_log_file_name(name: Seq<char>) -> bool {
    let d = last_dot(name);
    d > 0 && name.skip(d + 1) == seq!['l', 'o', 'g']
}

/// Whether the file `name` is a log file (see [`is_log_file_name`]).
pub fn is_log_file(name: &str) -> (r: bool)
    ensures
        r == is_log_file_name(name@),
{
    let cs = chars_of(name);
    let n = cs.len();
    match extension_dot(cs.as_slice()) {
        Some(d) => {
            proof {
                lemma_last_dot(cs@);
            }
            let mut ext: Vec<char> = Vec::new();
            let mut k = d + 1;
            while k < n
                invariant
                    d + 1 <= k <= n,
                    n == cs@.len(),
                    ext@ == cs@.subrange(d + 1, k as int),
                decreases n - k,
            {
                ext.push(cs[k]);
                k = k + 1;
            }
            assert(ext@ =~= name@.skip(d + 1));
            chars_eq(ext.as_slice(), &['l', 'o', 'g'])
        },
        None => false,
    }
}

} // verus!
