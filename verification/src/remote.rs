//! Where a transfer's ends are: local paths or remote `[user@]host:path`
//! specs, and the upload rate limit.
//!
//! Mirrors rsync's model: the source or destination may be a local path or a
//! remote `host:path`. Spawning ssh and driving the protocol over it happen
//! in the program.

use vstd::prelude::*;

use crate::filter::{trim, trim_chars};
use crate::text::{chars_of, string_of};

verus! {

/// A source or destination location: a local path or a remote `host:path`.
#[derive(Debug, Clone)]
pub enum Location {
    /// A path on the local filesystem.
    Local(String),
    /// A remote endpoint reached over ssh.
    Remote {
        /// Optional `user@` part.
        user: Option<String>,
        /// Hostname or ssh-config alias.
        host: String,
        /// Path on the remote host.
        path: String,
    },
}

impl Location {
    /// Whether this location is remote.
    pub fn is_remote(&self) -> (r: bool)
        ensures
            r == (self is Remote),
    {
        match self {
            Location::Remote { .. } => true,
            Location::Local(_) => false,
        }
    }
}

/// Index of the first `c` in `s`, or `s.len()` when there is none.
pub open spec fn first_index(s: Seq<char>, c: char) -> int
    decreases s.len(),
{
    if s.len() == 0 {
        0
    } else if s[0] == c {
        0
    } else {
        1 + first_index(s.drop_first(), c)
    }
}

proof fn lemma_first_index(s: Seq<char>, c: char)
    ensures
        0 <= first_index(s, c) <= s.len(),
        first_index(s, c) < s.len() ==> s[first_index(s, c)] == c,
        forall|j: int| 0 <= j < first_index(s, c) ==> #[trigger] s[j] != c,
    decreases s.len(),
{
    if s.len() > 0 && s[0] != c {
        lemma_first_index(s.drop_first(), c);
        assert forall|j: int| 0 <= j < first_index(s, c) implies #[trigger] s[j] != c by {
            if j > 0 {
                assert(s[j] == s.drop_first()[j - 1]);
            }
        }
    }
}

fn find_char(cs: &[char], c: char) -> (i: usize)
    ensures
        i as int == first_index(cs@, c),
{
    proof {
        lemma_first_index(cs@, c);
    }
    let mut i: usize = 0;
    while i < cs.len() && cs[i] != c
        invariant
            i <= cs@.len(),
            i <= first_index(cs@, c),
            0 <= first_index(cs@, c) <= cs@.len(),
            first_index(cs@, c) < cs@.len() ==> cs@[first_index(cs@, c)] == c,
        decreases cs@.len() - i,
    {
        i += 1;
    }
    i
}

/// An ASCII letter.
pub open spec fn is_ascii_letter(c: char) -> bool {
    ('a' <= c && c <= 'z') || ('A' <= c && c <= 'Z')
}

/// A spec is remote when it has a `:` whose left side is not empty, holds no
/// path separator (`/` or `\`), and is not a single-letter Windows drive.
pub open spec fn remote_spec(s: Seq<char>) -> bool {
    let idx = first_index(s, ':');
    let before = s.take(idx);
    &&& idx < s.len()
    &&& before.len() > 0
    &&& !before.contains('/')
    &&& !before.contains('\\')
    &&& !(before.len() == 1 && is_ascii_letter(before[0]))
}

fn contains_char(cs: &[char], from: usize, to: usize, c: char) -> (r: bool)
    requires
        from <= to <= cs@.len(),
    ensures
        r == cs@.subrange(from as int, to as int).contains(c),
{
    let mut i: usize = from;
    while i < to
        invariant
            from <= i <= to,
            to <= cs@.len(),
            forall|j: int| from <= j < i ==> cs@[j] != c,
        decreases to - i,
    {
        if cs[i] == c {
            proof {
                assert(cs@.subrange(from as int, to as int)[i - from] == c);
            }
            return true;
        }
        i += 1;
    }
    proof {
        if cs@.subrange(from as int, to as int).contains(c) {
            let k = choose|k: int| 0 <= k < to - from && cs@.subrange(from as int, to as int)[k] == c;
            assert(cs@[from + k] == c);
        }
    }
    false
}

/// Parses a command-line argument into a [`Location`]: remote when
/// [`remote_spec`] holds, split at the first `:` into host part and path, the
/// host part split at its first `@` into user and host; local otherwise.
/// So `C:\dir` and `./a:b` stay local, while `host:/srv`, `user@host:rel`
/// and `box:.` are remote.
pub fn parse_location(s: &str) -> (l: Location)
    ensures
        !remote_spec(s@) ==> (l matches Location::Local(p) && p@ == s@),
        remote_spec(s@) ==> ({
            let idx = first_index(s@, ':');
            let before = s@.take(idx);
            let at = first_index(before, '@');
            &&& l is Remote
            &&& l->path@ == s@.skip(idx + 1)
            &&& at < before.len() ==> (l->user matches Some(u) && u@ == before.take(at)
                && l->host@ == before.skip(at + 1))
            &&& at == before.len() ==> (l->user is None && l->host@ == before)
        }),
{
    let cs = chars_of(s);
    let idx = find_char(cs.as_slice(), ':');
    proof {
        lemma_first_index(s@, ':');
        assert(cs@.subrange(0, idx as int) =~= s@.take(idx as int));
    }
    if idx < cs.len() {
        let is_drive = idx == 1 && (('a' <= cs[0] && cs[0] <= 'z') || ('A' <= cs[0] && cs[0] <= 'Z'));
        let looks_remote = idx > 0 && !contains_char(cs.as_slice(), 0, idx, '/') && !contains_char(
            cs.as_slice(),
            0,
            idx,
            '\\',
        ) && !is_drive;
        proof {
            if idx == 1 {
                assert(s@.take(1)[0] == cs@[0]);
            }
        }
        if looks_remote {
            let before = string_of(cs.as_slice(), 0, idx);
            let bcs = chars_of(before.as_str());
            let at = find_char(bcs.as_slice(), '@');
            let path = string_of(cs.as_slice(), idx + 1, cs.len());
            proof {
                assert(path@ =~= s@.skip(idx + 1));
                lemma_first_index(bcs@, '@');
            }
            if at < bcs.len() {
                let user = string_of(bcs.as_slice(), 0, at);
                let host = string_of(bcs.as_slice(), at + 1, bcs.len());
                proof {
                    assert(user@ =~= bcs@.take(at as int));
                    assert(host@ =~= bcs@.skip(at + 1));
                }
                return Location::Remote { user: Some(user), host, path };
            } else {
                return Location::Remote { user: None, host: before, path };
            }
        }
    }
    Location::Local(s.to_owned())
}

/// How a `--bwlimit` value reads: the number's text (trimmed) and the unit
/// it is in, in bytes per second. A `K`, `M` or `G` suffix (either case)
/// sets the unit to 1024, 1024² or 1024³; a bare number is KiB/s, as in
/// rsync.
pub open spec fn bwlimit_spec(spec: Seq<char>) -> (Seq<char>, u64) {
    let t = trim(spec);
    if t.len() > 0 && (t.last() == 'k' || t.last() == 'K') {
        (trim(t.drop_last()), 1024)
    } else if t.len() > 0 && (t.last() == 'm' || t.last() == 'M') {
        (trim(t.drop_last()), 1048576)
    } else if t.len() > 0 && (t.last() == 'g' || t.last() == 'G') {
        (trim(t.drop_last()), 1073741824)
    } else {
        (trim(t), 1024)
    }
}

/// Splits a `--bwlimit` value into the number to parse and its unit (see
/// [`bwlimit_spec`]).
pub fn bwlimit_parts(spec: &str) -> (r: (String, u64))
    ensures
        r.0@ == bwlimit_spec(spec@).0,
        r.1 == bwlimit_spec(spec@).1,
{
    let cs = chars_of(spec);
    let (lo, hi) = trim_chars(cs.as_slice());
    let ghost t = trim(spec@);
    let mut end = hi;
    let mut mult: u64 = 1024;
    if hi > lo {
        let last = cs[hi - 1];
        proof {
            assert(t.last() == cs@[hi - 1]);
        }
        if last == 'k' || last == 'K' {
            end = hi - 1;
        } else if last == 'm' || last == 'M' {
            end = hi - 1;
            mult = 1048576;
        } else if last == 'g' || last == 'G' {
            end = hi - 1;
            mult = 1073741824;
        }
    }
    let num = string_of(cs.as_slice(), lo, end);
    let ncs = chars_of(num.as_str());
    let (a, b) = trim_chars(ncs.as_slice());
    let out = string_of(ncs.as_slice(), a, b);
    proof {
        if end < hi {
            assert(num@ =~= t.drop_last());
        } else {
            assert(num@ =~= t);
        }
    }
    (out, mult)
}

} // verus!
