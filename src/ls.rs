//! Bounded breadth-first directory listing.
use vstd::prelude::*;

use crate::glob::{matches_any, matches_any_pattern};
use crate::tools::FileFacts;
use crate::text::{concat, decimal, decimal_string, join, joined, views};

verus! {

pub const LS_TOOL_DESCRIPTION: &'static str = "
A tool for listing directory contents.

HOW TO USE:
- Provide the path to the directory you want to view
- Optionally provide a depth to recursively list directory contents
- Optionally provide a list of glob patterns to exclude files and directories from being searched

LIMITATIONS:
- Only 1000 entries will be returned
- Directories containing over 10000 entries will be truncated
";

pub const LS_SCHEMA: &'static str = r#"
{
    "type": "object",
    "properties": {
        "path": {
            "type": "string",
            "description": "Path to the directory"
        },
        "depth": {
            "type": "integer",
            "description": "Depth of a recursive directory listing",
            "default": 0
        },
        "ignore": {
            "type": "array",
            "description": "List of glob patterns to ignore",
            "items": {
                "type": "string",
                "description": "Glob pattern to ignore"
            }
        }
    },
    "required": [
        "path"
    ]
}
"#;

/// A directory listing request.
#[derive(Debug, Clone)]
pub struct Ls {
    pub path: String,
    pub depth: Option<usize>,
    pub ignore: Option<Vec<String>>,
}

/// Directory names that a recursive listing never descends into.
pub open spec fn builtin_ignores() -> Seq<Seq<char>> {
    seq!["node_modules"@, "bin"@, "build"@, "dist"@, "out"@, ".cache"@, ".git"@]
}

fn builtin_ignore_patterns() -> (r: Vec<String>)
    ensures
        views(r@) == builtin_ignores(),
{
    let r = vec![
        "node_modules".to_owned(),
        "bin".to_owned(),
        "build".to_owned(),
        "dist".to_owned(),
        "out".to_owned(),
        ".cache".to_owned(),
        ".git".to_owned(),
    ];
    assert(views(r@) =~= builtin_ignores());
    r
}

/// The most entry lines a listing returns.
pub const MAX_LS_ENTRIES: usize = 1000;

/// Past this many entries a directory is reported as exceeding the cap.
pub const MAX_ENTRY_COUNT_PER_DIR: usize = 10000;

/// The depth listed when none is given.
pub const DEFAULT_DEPTH: usize = 0;

/// The permission character for bit `k` (0 to 8, most significant first).
pub open spec fn mode_char(mode: u32, k: int) -> char {
    if (mode >> ((8 - k) as u32)) & 1u32 == 1u32 {
        if k % 3 == 0 {
            'r'
        } else if k % 3 == 1 {
            'w'
        } else {
            'x'
        }
    } else {
        '-'
    }
}

fn perm_char(mode: u32, k: u32) -> (c: char)
    requires
        k < 9,
    ensures
        c == mode_char(mode, k as int),
{
    if (mode >> (8 - k)) & 1u32 == 1u32 {
        if k % 3 == 0 {
            'r'
        } else if k % 3 == 1 {
            'w'
        } else {
            'x'
        }
    } else {
        '-'
    }
}

/// Formats the permission bits of a mode as `ls` does, e.g. `0o644` as
/// `rw-r--r--`.
pub fn format_mode(mode: u32) -> (r: [char; 9])
    ensures
        forall|k: int| 0 <= k < 9 ==> r@[k] == mode_char(mode, k),
{
    let r = [
        perm_char(mode, 0),
        perm_char(mode, 1),
        perm_char(mode, 2),
        perm_char(mode, 3),
        perm_char(mode, 4),
        perm_char(mode, 5),
        perm_char(mode, 6),
        perm_char(mode, 7),
        perm_char(mode, 8),
    ];
    r
}

/// Where entry `i` goes among the already ordered entries `o`: before the
/// first one that is not newer.
pub open spec fn insert_pos(o: Seq<int>, mt: Seq<u64>, i: int) -> int
    decreases o.len(),
{
    if o.len() == 0 {
        0
    } else if mt[o[0]] <= mt[i] {
        0
    } else {
        1 + insert_pos(o.drop_first(), mt, i)
    }
}

/// The first `n` entries, by index, newest first; of two equally old
/// entries the later one comes first.
pub open spec fn newest_first(mt: Seq<u64>, n: int) -> Seq<int>
    decreases n,
{
    if n <= 0 {
        Seq::empty()
    } else {
        let o = newest_first(mt, n - 1);
        o.insert(insert_pos(o, mt, n - 1), n - 1)
    }
}

proof fn lemma_insert_pos_bounds(o: Seq<int>, mt: Seq<u64>, i: int)
    ensures
        0 <= insert_pos(o, mt, i) <= o.len(),
    decreases o.len(),
{
    if o.len() > 0 {
        lemma_insert_pos_bounds(o.drop_first(), mt, i);
    }
}

proof fn lemma_insert_pos_split(o: Seq<int>, mt: Seq<u64>, i: int)
    ensures
        forall|a: int| 0 <= a < insert_pos(o, mt, i) ==> mt[o[a]] > mt[i],
        insert_pos(o, mt, i) < o.len() ==> mt[o[insert_pos(o, mt, i)]] <= mt[i],
    decreases o.len(),
{
    lemma_insert_pos_bounds(o, mt, i);
    if o.len() > 0 && mt[o[0]] > mt[i] {
        let tl = o.drop_first();
        lemma_insert_pos_split(tl, mt, i);
        lemma_insert_pos_bounds(tl, mt, i);
        assert(insert_pos(o, mt, i) == 1 + insert_pos(tl, mt, i));
        assert forall|a: int| 0 <= a < insert_pos(o, mt, i) implies mt[o[a]] > mt[i] by {
            if a > 0 {
                assert(o[a] == tl[a - 1]);
            }
        }
        if insert_pos(o, mt, i) < o.len() {
            assert(o[insert_pos(o, mt, i)] == tl[insert_pos(tl, mt, i)]);
        }
    }
}

/// The newest-first order is a permutation of the entries, newest first.
pub proof fn lemma_newest_first_sorted(mt: Seq<u64>, n: int)
    requires
        0 <= n <= mt.len(),
    ensures
        newest_first(mt, n).len() == n,
        forall|a: int| 0 <= a < n ==> 0 <= #[trigger] newest_first(mt, n)[a] < n,
        forall|a: int, b: int|
            0 <= a < b < n ==> newest_first(mt, n)[a] != newest_first(mt, n)[b],
        forall|a: int, b: int|
            0 <= a < b < n ==> mt[newest_first(mt, n)[a]] >= mt[newest_first(mt, n)[b]],
    decreases n,
{
    if n > 0 {
        lemma_newest_first_sorted(mt, n - 1);
        let o = newest_first(mt, n - 1);
        let p = insert_pos(o, mt, n - 1);
        lemma_insert_pos_bounds(o, mt, n - 1);
        lemma_insert_pos_split(o, mt, n - 1);
        let r = o.insert(p, n - 1);
        assert(r == newest_first(mt, n));
        assert forall|a: int| 0 <= a < n implies 0 <= #[trigger] r[a] < n by {
            if a < p {
                assert(r[a] == o[a]);
            } else if a > p {
                assert(r[a] == o[a - 1]);
            }
        }
        assert forall|a: int, b: int| 0 <= a < b < n implies r[a] != r[b] by {
            if a < p {
                assert(r[a] == o[a]);
            } else if a > p {
                assert(r[a] == o[a - 1]);
            }
            if b < p {
                assert(r[b] == o[b]);
            } else if b > p {
                assert(r[b] == o[b - 1]);
            }
        }
        assert forall|a: int, b: int| 0 <= a < b < n implies mt[r[a]] >= mt[r[b]] by {
            if b < p {
                assert(r[a] == o[a] && r[b] == o[b]);
            } else if b == p {
                assert(r[a] == o[a]);
            } else if a < p {
                assert(r[a] == o[a] && r[b] == o[b - 1]);
                if p < n - 1 {
                    assert(mt[o[b - 1]] <= mt[o[p]]);
                }
            } else if a == p {
                assert(r[b] == o[b - 1]);
                assert(mt[o[b - 1]] <= mt[o[p]]);
            } else {
                assert(r[a] == o[a - 1] && r[b] == o[b - 1]);
            }
        }
    }
}

/// The integers held by a sequence of indices.
pub open spec fn ints(v: Seq<usize>) -> Seq<int> {
    v.map_values(|x: usize| x as int)
}

/// The indices of `mtimes`, newest first; of two equally old entries the
/// later one comes first.
pub fn newest_first_order(mtimes: &Vec<u64>) -> (r: Vec<usize>)
    ensures
        ints(r@) == newest_first(mtimes@, mtimes@.len() as int),
{
    let mut order: Vec<usize> = Vec::new();
    let mut i: usize = 0;
    proof {
        assert(ints(order@) =~= newest_first(mtimes@, 0));
    }
    while i < mtimes.len()
        invariant
            0 <= i <= mtimes@.len(),
            ints(order@) == newest_first(mtimes@, i as int),
        decreases mtimes@.len() - i,
    {
        let ghost o = newest_first(mtimes@, i as int);
        proof {
            lemma_newest_first_sorted(mtimes@, i as int);
        }
        let mut k: usize = 0;
        assert(o.skip(0) == o);
        while k < order.len() && mtimes[order[k]] > mtimes[i]
            invariant
                0 <= i < mtimes@.len(),
                0 <= k <= order@.len(),
                ints(order@) == o,
                o.len() == i,
                forall|a: int| 0 <= a < i ==> 0 <= #[trigger] o[a] < i,
                insert_pos(o, mtimes@, i as int) == k + insert_pos(o.skip(k as int), mtimes@, i as int),
            decreases order@.len() - k,
        {
            proof {
                assert(o[k as int] == order@[k as int] as int);
                assert(o.skip(k as int).drop_first() == o.skip(k + 1));
            }
            k = k + 1;
        }
        proof {
            if k < order@.len() {
                assert(o[k as int] == order@[k as int] as int);
            }
            assert(insert_pos(o.skip(k as int), mtimes@, i as int) == 0);
        }
        order.insert(k, i);
        proof {
            assert(ints(order@) =~= o.insert(k as int, i as int));
        }
        i = i + 1;
    }
    order
}

/// The UTC month (1 to 12) and day of the month of a Unix timestamp, as
/// the time crate computes them; nothing outside the range it supports.
pub uninterp spec fn utc_month_day(secs: int) -> Option<(u8, u8)>;

/// Relies on time's `OffsetDateTime::from_unix_timestamp` and the month and
/// day of its result: a UTC date whose month is 1 to 12 and whose day is 1
/// to 31.
#[verifier::external_body]
fn utc_date(secs: i64) -> (r: Option<(u8, u8)>)
    ensures
        r == utc_month_day(secs as int),
        r matches Some((m, d)) ==> 1 <= m <= 12 && 1 <= d <= 31,
{
    time::OffsetDateTime::from_unix_timestamp(secs).ok().map(|t| (u8::from(t.month()), t.day()))
}

/// The English three-letter name of month `m`.
pub open spec fn month_abbrev(m: u8) -> Seq<char> {
    if m == 1 { "Jan"@ }
    else if m == 2 { "Feb"@ }
    else if m == 3 { "Mar"@ }
    else if m == 4 { "Apr"@ }
    else if m == 5 { "May"@ }
    else if m == 6 { "Jun"@ }
    else if m == 7 { "Jul"@ }
    else if m == 8 { "Aug"@ }
    else if m == 9 { "Sep"@ }
    else if m == 10 { "Oct"@ }
    else if m == 11 { "Nov"@ }
    else { "Dec"@ }
}

fn month_name(m: u8) -> (r: &'static str)
    ensures
        r@ == month_abbrev(m),
{
    if m == 1 { "Jan" }
    else if m == 2 { "Feb" }
    else if m == 3 { "Mar" }
    else if m == 4 { "Apr" }
    else if m == 5 { "May" }
    else if m == 6 { "Jun" }
    else if m == 7 { "Jul" }
    else if m == 8 { "Aug" }
    else if m == 9 { "Sep" }
    else if m == 10 { "Oct" }
    else if m == 11 { "Nov" }
    else { "Dec" }
}

/// `n` in decimal, padded to two digits with a zero.
pub open spec fn two_digits(n: nat) -> Seq<char> {
    if n < 10 {
        seq!['0'] + decimal(n)
    } else {
        decimal(n)
    }
}

fn two_digit_string(n: u64) -> (r: String)
    ensures
        r@ == two_digits(n as nat),
{
    let d = decimal_string(n as u128);
    if n < 10 {
        proof {
            reveal_strlit("0");
            assert("0"@ == seq!['0']);
        }
        concat("0", d.as_str())
    } else {
        d
    }
}

/// A timestamp as `Mon DD HH:MM` in UTC; the plain number of seconds
/// when no date can be given for it.
pub open spec fn date_label(secs: u64) -> Seq<char> {
    if secs > i64::MAX {
        decimal(secs as nat)
    } else {
        match utc_month_day(secs as int) {
            Some((m, d)) => month_abbrev(m) + " "@ + two_digits(d as nat) + " "@ + two_digits(
                ((secs % 86400) / 3600) as nat,
            ) + ":"@ + two_digits(((secs % 3600) / 60) as nat),
            None => decimal(secs as nat),
        }
    }
}

/// Formats a modification time for a listing line.
pub fn format_date(secs: u64) -> (r: String)
    ensures
        r@ == date_label(secs),
{
    if secs > i64::MAX as u64 {
        return decimal_string(secs as u128);
    }
    match utc_date(secs as i64) {
        Some((m, d)) => {
            let a = concat(month_name(m), " ");
            let b = concat(a.as_str(), two_digit_string(d as u64).as_str());
            let c = concat(b.as_str(), " ");
            let e = concat(c.as_str(), two_digit_string((secs % 86400) / 3600).as_str());
            let f = concat(e.as_str(), ":");
            concat(f.as_str(), two_digit_string((secs % 3600) / 60).as_str())
        },
        None => decimal_string(secs as u128),
    }
}

/// The type character of an entry: `l` for a symbolic link, `d` for a
/// directory, `-` for a regular file and for anything else.
pub fn file_type_char(is_symlink: bool, is_file: bool, is_dir: bool) -> (c: char)
    ensures
        is_symlink ==> c == 'l',
        !is_symlink && is_file ==> c == '-',
        !is_symlink && !is_file && is_dir ==> c == 'd',
        !is_symlink && !is_file && !is_dir ==> c == '-',
{
    if is_symlink {
        'l'
    } else if is_file {
        '-'
    } else if is_dir {
        'd'
    } else {
        '-'
    }
}

/// One directory entry as read from disk: its path, its type (`d` for a
/// directory, `l` for a symbolic link, `-` otherwise), its permission
/// bits, link count, owner, group, size and modification time in seconds
/// since the Unix epoch.
#[derive(Debug, Clone)]
pub struct LsEntry {
    pub path: String,
    pub ftype: char,
    pub mode: u32,
    pub nlink: u64,
    pub uid: u32,
    pub gid: u32,
    pub size: u64,
    pub last_modified: u64,
}

/// The permission bits as nine characters.
pub open spec fn mode_text(mode: u32) -> Seq<char> {
    Seq::new(9, |k: int| mode_char(mode, k))
}

/// An entry's line in the listing, in the long format of `ls`.
pub open spec fn long_line(e: LsEntry) -> Seq<char> {
    seq![e.ftype] + mode_text(e.mode) + " "@ + decimal(e.nlink as nat) + " "@ + decimal(
        e.uid as nat,
    ) + " "@ + decimal(e.gid as nat) + " "@ + decimal(e.size as nat) + " "@ + date_label(
        e.last_modified,
    ) + " "@ + e.path@
}

impl LsEntry {
    pub open spec fn is_dir(&self) -> bool {
        self.ftype == 'd'
    }

    /// The entry's line in the listing.
    pub fn to_long_format(&self) -> (r: String)
        ensures
            r@ == long_line(*self),
    {
        let mode = format_mode(self.mode);
        let mut head: Vec<char> = Vec::new();
        head.push(self.ftype);
        let mut k: usize = 0;
        while k < 9
            invariant
                0 <= k <= 9,
                forall|j: int| 0 <= j < 9 ==> mode@[j] == mode_char(self.mode, j),
                head@ == seq![self.ftype] + mode_text(self.mode).take(k as int),
            decreases 9 - k,
        {
            head.push(mode[k]);
            proof {
                assert(mode_text(self.mode).take(k + 1) == mode_text(self.mode).take(k as int).push(mode@[k as int]));
            }
            k = k + 1;
        }
        proof {
            assert(mode_text(self.mode).take(9) == mode_text(self.mode));
        }
        let h = crate::text::string_from_chars(head.as_slice());
        let a = concat(h.as_str(), " ");
        let b = concat(a.as_str(), decimal_string(self.nlink as u128).as_str());
        let c = concat(b.as_str(), " ");
        let d = concat(c.as_str(), decimal_string(self.uid as u128).as_str());
        let e = concat(d.as_str(), " ");
        let f = concat(e.as_str(), decimal_string(self.gid as u128).as_str());
        let g = concat(f.as_str(), " ");
        let i = concat(g.as_str(), decimal_string(self.size as u128).as_str());
        let j = concat(i.as_str(), " ");
        let l = concat(j.as_str(), format_date(self.last_modified).as_str());
        let m = concat(l.as_str(), " ");
        concat(m.as_str(), self.path.as_str())
    }
}

/// The ignore patterns of a request, as text.
pub open spec fn ignore_view(o: Option<Vec<String>>) -> Option<Seq<Seq<char>>> {
    match o {
        Some(v) => Some(views(v@)),
        None => None,
    }
}

/// Whether the path is left out of the listing.
pub open spec fn ignored_by(ig: Option<Seq<Seq<char>>>, path: Seq<char>) -> bool {
    match ig {
        Some(ps) => matches_any(ps, path),
        None => false,
    }
}

/// The indices, among the first `n` entries, of those not ignored.
pub open spec fn kept_upto(es: Seq<LsEntry>, ig: Option<Seq<Seq<char>>>, n: int) -> Seq<int>
    decreases n,
{
    if n <= 0 {
        Seq::empty()
    } else if ignored_by(ig, es[n - 1].path@) {
        kept_upto(es, ig, n - 1)
    } else {
        kept_upto(es, ig, n - 1).push(n - 1)
    }
}

/// The modification times of the kept entries.
pub open spec fn kept_mtimes(es: Seq<LsEntry>, k: Seq<int>) -> Seq<u64> {
    Seq::new(k.len(), |j: int| es[k[j]].last_modified)
}

/// The `j`-th entry listed: kept entries, newest first.
pub open spec fn listed(es: Seq<LsEntry>, k: Seq<int>, j: int) -> LsEntry {
    es[k[newest_first(kept_mtimes(es, k), k.len() as int)[j]]]
}

/// The lines of the first `m` entries listed.
pub open spec fn listed_lines(es: Seq<LsEntry>, k: Seq<int>, m: int) -> Seq<Seq<char>> {
    Seq::new(m as nat, |j: int| long_line(listed(es, k, j)))
}

/// The directories, among the first `m` entries listed, that the listing
/// descends into, one level deeper.
pub open spec fn queued(es: Seq<LsEntry>, k: Seq<int>, m: int, depth: usize) -> Seq<(Seq<char>, usize)>
    decreases m,
{
    if m <= 0 {
        Seq::empty()
    } else {
        let q = queued(es, k, m - 1, depth);
        let e = listed(es, k, m - 1);
        if e.is_dir() && !matches_any(builtin_ignores(), e.path@) {
            q.push((e.path@, (depth + 1) as usize))
        } else {
            q
        }
    }
}

/// The line that reports a directory cut short.
pub open spec fn truncation_notice(dir: Seq<char>, total: nat, exceeded: bool) -> Seq<char> {
    "Directory at "@ + dir + " was truncated (has total "@ + decimal(total) + (if exceeded {
        "+"@
    } else {
        ""@
    }) + " entries)"@
}

/// The queue of directories to list, as text.
pub open spec fn queue_view(q: Seq<(String, usize)>) -> Seq<(Seq<char>, usize)> {
    q.map_values(|p: (String, usize)| (p.0@, p.1))
}

/// A directory listing in progress: the directories still to read, in
/// breadth-first order with their depths, the lines listed so far, and the
/// lines that go before them.
#[derive(Debug, Clone)]
pub struct LsWalk {
    pub max_depth: usize,
    pub queue: Vec<(String, usize)>,
    pub next: usize,
    pub prefix: Vec<String>,
    pub result: Vec<String>,
    pub done: bool,
}

impl Ls {
    pub open spec fn spec_depth(&self) -> usize {
        match self.depth {
            Some(d) => d,
            None => DEFAULT_DEPTH,
        }
    }

    /// How deep the listing goes; the root is at depth 0.
    pub fn depth(&self) -> (r: usize)
        ensures
            r == self.spec_depth(),
    {
        match self.depth {
            Some(d) => d,
            None => DEFAULT_DEPTH,
        }
    }

    /// Checks the listed path: `resolved` is where the request's path
    /// leads, `exists` whether anything is there, `meta` what its metadata
    /// says, read without following a final symbolic link.
    pub fn validate(&self, resolved: &str, exists: bool, meta: &Result<FileFacts, String>) -> (r: Result<(), String>)
        ensures
            !exists ==> (r matches Err(m) && m@ == "Directory not found: "@ + resolved@),
            exists && meta is Err ==> (r matches Err(m) && m@ == "failed to check file metadata for path '"@
                + resolved@ + "': "@ + meta->Err_0@),
            exists && meta is Ok && !meta->Ok_0.is_dir ==> (r matches Err(m) && m@
                == "Path is not a directory: "@ + resolved@),
            exists && meta is Ok && meta->Ok_0.is_dir ==> r is Ok,
    {
        if !exists {
            return Err(concat("Directory not found: ", resolved));
        }
        match meta {
            Err(e) => {
                let a = concat("failed to check file metadata for path '", resolved);
                let b = concat(a.as_str(), "': ");
                Err(concat(b.as_str(), e.as_str()))
            },
            Ok(f) => {
                if !f.is_dir {
                    Err(concat("Path is not a directory: ", resolved))
                } else {
                    Ok(())
                }
            },
        }
    }

    /// Whether one of the request's ignore patterns matches the path.
    pub fn matches_ignore_patterns(&self, path: &str) -> (b: bool)
        ensures
            b == ignored_by(ignore_view(self.ignore), path@),
    {
        match &self.ignore {
            Some(patterns) => matches_any_pattern(patterns, path),
            None => false,
        }
    }

    /// Starts listing from `root`, the resolved path of the request. The
    /// effective user id, where the platform has one, heads the output.
    pub fn start(&self, root: String, user_id: Option<u32>) -> (w: LsWalk)
        ensures
            w.wf(),
            w.max_depth == self.spec_depth(),
            queue_view(w.queue@) == seq![(root@, 0usize)],
            w.next == 0,
            w.result@.len() == 0,
            !w.done,
            user_id matches Some(u) ==> views(w.prefix@) == seq!["User id: "@ + decimal(u as nat)],
            user_id is None ==> w.prefix@.len() == 0,
    {
        let mut prefix: Vec<String> = Vec::new();
        if let Some(u) = user_id {
            prefix.push(concat("User id: ", decimal_string(u as u128).as_str()));
        }
        let ghost root_view = root@;
        let queue = vec![(root, 0usize)];
        proof {
            assert(views(prefix@) =~= (if user_id is Some {
                seq!["User id: "@ + decimal(user_id->0 as nat)]
            } else {
                Seq::<Seq<char>>::empty()
            }));
            assert(queue_view(queue@) =~= seq![(root_view, 0usize)]);
        }
        LsWalk {
            max_depth: self.depth(),
            queue,
            next: 0,
            prefix,
            result: Vec::new(),
            done: false,
        }
    }
}

/// Entries listed from one directory come newest first: of two listed
/// entries, the earlier is at least as recent, so an entry strictly newer
/// than another is listed before it.
pub proof fn lemma_listed_newest_first(es: Seq<LsEntry>, k: Seq<int>, a: int, b: int)
    requires
        0 <= a < b < k.len(),
        forall|j: int| 0 <= j < k.len() ==> 0 <= #[trigger] k[j] < es.len(),
    ensures
        listed(es, k, a).last_modified >= listed(es, k, b).last_modified,
{
    let mt = kept_mtimes(es, k);
    lemma_newest_first_sorted(mt, k.len() as int);
    let o = newest_first(mt, k.len() as int);
    assert(mt[o[a]] >= mt[o[b]]);
}

/// Three entries read with modification times `t1 < t2 < t3`, and no ignore
/// patterns, are listed in the order `t3`, `t2`, `t1`.
pub proof fn lemma_three_entries_newest_first(es: Seq<LsEntry>)
    requires
        es.len() == 3,
        es[0].last_modified < es[1].last_modified < es[2].last_modified,
    ensures
        ({
            let k = kept_upto(es, None, 3);
            listed_lines(es, k, 3) == seq![long_line(es[2]), long_line(es[1]), long_line(es[0])]
        }),
{
    let k = kept_upto(es, None, 3);
    assert(kept_upto(es, None, 0) == Seq::<int>::empty());
    assert(kept_upto(es, None, 1) == seq![0int]);
    assert(kept_upto(es, None, 2) == seq![0int, 1]);
    assert(k == seq![0int, 1, 2]);
    let mt = kept_mtimes(es, k);
    assert(mt[0] == es[0].last_modified && mt[1] == es[1].last_modified && mt[2] == es[2].last_modified);
    let e = Seq::<int>::empty();
    assert(newest_first(mt, 0) == e);
    assert(insert_pos(e, mt, 0) == 0);
    assert(newest_first(mt, 1) =~= seq![0int]);
    let o1 = seq![0int];
    assert(insert_pos(o1, mt, 1) == 0);
    assert(newest_first(mt, 2) =~= seq![1int, 0]);
    let o2 = seq![1int, 0];
    assert(insert_pos(o2, mt, 2) == 0);
    assert(newest_first(mt, 3) =~= seq![2int, 1, 0]);
    assert(listed(es, k, 0) == es[2]);
    assert(listed(es, k, 1) == es[1]);
    assert(listed(es, k, 2) == es[0]);
    assert(listed_lines(es, k, 3) =~= seq![long_line(es[2]), long_line(es[1]), long_line(es[0])]);
}

/// When a directory is cut short, its notice is the last line before the
/// entries: the listing reads as the earlier notices, the new notice, a
/// line break, and the entry lines.
pub proof fn lemma_notice_precedes_entries(prefix: Seq<Seq<char>>, notice: Seq<char>, result: Seq<Seq<char>>)
    ensures
        joined(prefix.push(notice), "\n"@) + "\n"@ + joined(result, "\n"@) == (if prefix.len() == 0 {
            Seq::<char>::empty()
        } else {
            joined(prefix, "\n"@) + "\n"@
        }) + notice + "\n"@ + joined(result, "\n"@),
{
    let p = prefix.push(notice);
    assert(p.drop_last() == prefix);
    assert(p.last() == notice);
    if prefix.len() == 0 {
        assert(joined(p, "\n"@) == p[0]);
        assert(Seq::<char>::empty() + notice == notice);
    } else {
        assert(joined(p, "\n"@) == joined(prefix, "\n"@) + "\n"@ + notice);
    }
}

impl LsWalk {
    /// The listing never holds more than the global cap of lines.
    pub open spec fn wf(&self) -> bool {
        &&& self.result@.len() <= MAX_LS_ENTRIES
        &&& self.next <= self.queue@.len()
    }

    /// The next directory to read and its depth, or nothing when the
    /// listing is over: the queue is empty, the listing was cut short, or
    /// the next directory is deeper than asked.
    pub fn next_dir(&mut self) -> (r: Option<(String, usize)>)
        requires
            old(self).wf(),
        ensures
            final(self).wf(),
            final(self).queue == old(self).queue,
            final(self).prefix == old(self).prefix,
            final(self).result == old(self).result,
            final(self).max_depth == old(self).max_depth,
            old(self).done || old(self).next == old(self).queue@.len() ==> r is None
                && final(self).next == old(self).next && final(self).done == old(self).done,
            !old(self).done && old(self).next < old(self).queue@.len() && old(self).queue@[old(
                self,
            ).next as int].1 > old(self).max_depth ==> r is None && final(self).done
                && final(self).next == old(self).next,
            !old(self).done && old(self).next < old(self).queue@.len() && old(self).queue@[old(
                self,
            ).next as int].1 <= old(self).max_depth ==> (r matches Some((p, d)) && p@ == old(
                self,
            ).queue@[old(self).next as int].0@ && d == old(self).queue@[old(self).next as int].1)
                && final(self).next == old(self).next + 1 && !final(self).done,
    {
        if self.done || self.next >= self.queue.len() {
            return None;
        }
        let depth = self.queue[self.next].1;
        if depth > self.max_depth {
            self.done = true;
            return None;
        }
        let path = self.queue[self.next].0.clone();
        self.next = self.next + 1;
        Some((path, depth))
    }

    /// Lists the entries read from `dir`, found at `depth`: entries that
    /// match the request's ignore patterns are left out, the others are
    /// listed newest first, and each directory among them is queued one
    /// level deeper unless it is one of the built-in ignored names. Once
    /// the global cap is reached the listing stops and a notice naming
    /// `dir` and its entry count goes before the lines.
    pub fn add_dir(&mut self, ls: &Ls, dir: &str, depth: usize, entries: &Vec<LsEntry>)
        requires
            old(self).wf(),
            !old(self).done,
            depth < usize::MAX,
        ensures
            final(self).wf(),
            final(self).next == old(self).next,
            final(self).max_depth == old(self).max_depth,
            ({
                let ig = ignore_view(ls.ignore);
                let k = kept_upto(entries@, ig, entries@.len() as int);
                let room = MAX_LS_ENTRIES - old(self).result@.len();
                let m = if k.len() <= room { k.len() as int } else { room };
                &&& views(final(self).result@) == views(old(self).result@) + listed_lines(entries@, k, m)
                &&& queue_view(final(self).queue@) == queue_view(old(self).queue@) + queued(entries@, k, m, depth)
                &&& k.len() <= room ==> final(self).prefix == old(self).prefix && !final(self).done
                &&& k.len() > room ==> final(self).done && views(final(self).prefix@) == views(
                    old(self).prefix@,
                ).push(truncation_notice(dir@, k.len(), k.len() > MAX_ENTRY_COUNT_PER_DIR))
            }),
    {
        let ghost es = entries@;
        let ghost ig = ignore_view(ls.ignore);
        let mut kept: Vec<usize> = Vec::new();
        let mut i: usize = 0;
        while i < entries.len()
            invariant
                0 <= i <= es.len(),
                es == entries@,
                ig == ignore_view(ls.ignore),
                ints(kept@) == kept_upto(es, ig, i as int),
                forall|j: int| 0 <= j < kept@.len() ==> #[trigger] kept@[j] < i,
            decreases es.len() - i,
        {
            if !ls.matches_ignore_patterns(entries[i].path.as_str()) {
                kept.push(i);
                proof {
                    assert(ints(kept@) =~= kept_upto(es, ig, i as int).push(i as int));
                }
            }
            i = i + 1;
        }
        let ghost k = ints(kept@);
        let nk = kept.len();
        let exceeded = nk > MAX_ENTRY_COUNT_PER_DIR;
        let mut mt: Vec<u64> = Vec::new();
        let mut j: usize = 0;
        while j < nk
            invariant
                0 <= j <= nk,
                nk == kept@.len(),
                k == ints(kept@),
                es == entries@,
                forall|a: int| 0 <= a < kept@.len() ==> #[trigger] kept@[a] < es.len(),
                mt@ == kept_mtimes(es, k).take(j as int),
            decreases nk - j,
        {
            mt.push(entries[kept[j]].last_modified);
            proof {
                assert(mt@ =~= kept_mtimes(es, k).take(j + 1));
            }
            j = j + 1;
        }
        proof {
            assert(mt@ =~= kept_mtimes(es, k));
        }
        let ord = newest_first_order(&mt);
        let ghost o = newest_first(kept_mtimes(es, k), k.len() as int);
        proof {
            lemma_newest_first_sorted(mt@, nk as int);
        }
        let builtins = builtin_ignore_patterns();
        let ghost old_result = views(self.result@);
        let ghost old_queue = queue_view(self.queue@);
        let ghost old_len = self.result@.len();
        let mut j: usize = 0;
        while j < nk && self.result.len() < MAX_LS_ENTRIES
            invariant
                0 <= j <= nk,
                nk == kept@.len(),
                k == ints(kept@),
                es == entries@,
                forall|a: int| 0 <= a < kept@.len() ==> #[trigger] kept@[a] < es.len(),
                ints(ord@) == o,
                o == newest_first(kept_mtimes(es, k), k.len() as int),
                o.len() == nk,
                forall|a: int| 0 <= a < nk ==> 0 <= #[trigger] o[a] < nk,
                views(builtins@) == builtin_ignores(),
                self.result@.len() == old_len + j,
                self.result@.len() <= MAX_LS_ENTRIES,
                self.next == old(self).next,
                self.next <= old(self).queue@.len(),
                old(self).queue@.len() <= self.queue@.len(),
                self.max_depth == old(self).max_depth,
                self.prefix == old(self).prefix,
                depth < usize::MAX,
                !self.done,
                views(self.result@) == old_result + listed_lines(es, k, j as int),
                queue_view(self.queue@) == old_queue + queued(es, k, j as int, depth),
            decreases nk - j,
        {
            proof {
                assert(o[j as int] == ord@[j as int] as int);
                assert(k[o[j as int]] == kept@[ord@[j as int] as int] as int);
            }
            let oj = ord[j];
            let idx = kept[oj];
            let e = &entries[idx];
            proof {
                assert(o[j as int] == oj as int);
                assert(k[oj as int] == idx as int);
                assert(*e == es[idx as int]);
                assert(listed(es, k, j as int) == es[k[o[j as int]]]);
                assert(*e == listed(es, k, j as int));
            }
            let line = e.to_long_format();
            let ghost before = self.result@;
            let ghost line_view = line@;
            self.result.push(line);
            proof {
                assert(views(self.result@) =~= views(before).push(line_view));
                assert(listed_lines(es, k, j + 1) =~= listed_lines(es, k, j as int).push(line_view));
                assert(views(self.result@) =~= old_result + listed_lines(es, k, j + 1));
            }
            if e.ftype == 'd' && !matches_any_pattern(&builtins, e.path.as_str()) {
                let ghost before_q = self.queue@;
                let p = e.path.clone();
                let ghost pv = p@;
                self.queue.push((p, depth + 1));
                proof {
                    assert(queue_view(self.queue@) =~= queue_view(before_q).push((pv, (depth + 1) as usize)));
                    assert(queued(es, k, j + 1, depth) == queued(es, k, j as int, depth).push((pv, (depth + 1) as usize)));
                    assert(queue_view(self.queue@) =~= old_queue + queued(es, k, j + 1, depth));
                }
            } else {
                proof {
                    assert(queued(es, k, j + 1, depth) == queued(es, k, j as int, depth));
                }
            }
            j = j + 1;
        }
        if j < nk {
            let a = concat("Directory at ", dir);
            let b = concat(a.as_str(), " was truncated (has total ");
            let c = concat(b.as_str(), decimal_string(nk as u128).as_str());
            let d = concat(c.as_str(), if exceeded { "+" } else { "" });
            let notice = concat(d.as_str(), " entries)");
            self.prefix.push(notice);
            self.done = true;
            proof {
                assert(views(self.prefix@) =~= views(old(self).prefix@).push(notice@));
            }
        }
    }

    /// The listing as text: the lines that go before the entries, a line
    /// break, then one line per entry.
    pub fn output(&self) -> (r: String)
        ensures
            r@ == joined(views(self.prefix@), "\n"@) + "\n"@ + joined(views(self.result@), "\n"@),
    {
        let p = join(&self.prefix, "\n");
        let a = concat(p.as_str(), "\n");
        concat(a.as_str(), join(&self.result, "\n").as_str())
    }
}

} // verus!
