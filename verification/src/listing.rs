//! Directory listings: entry records, permission strings, and the
//! deterministic ordering every listing is returned in.
//!
//! A listing shows directories first, then files and symlinks, each
//! group ordered by name compared case-insensitively (ASCII letters
//! fold). The sort is a stable insertion sort whose result is pinned by
//! a specification-level function, so listing the same directory twice
//! yields the identical order; sorting an already sorted listing
//! changes nothing.

use vstd::prelude::*;
use crate::strutil::str_eq;
use crate::timefmt::{chrono_from_unix_timestamp, timestamp_spec};

verus! {

/// What kind of object a directory entry names.
#[derive(Debug, Clone, Copy, PartialEq, Eq, Structural)]
pub enum FileEntryType {
    File,
    Directory,
    Symlink,
}

/// One file/directory entry of a listing, as shown to the caller.
#[derive(Debug, Clone)]
pub struct FileEntry {
    pub name: String,
    pub size: u64,
    pub modified: Option<String>,
    pub permissions: Option<String>,
    pub file_type: FileEntryType,
}

/// The mathematical content of a [`FileEntry`].
#[verifier::ext_equal]
pub ghost struct EntryView {
    pub name: Seq<char>,
    pub size: u64,
    pub modified: Option<Seq<char>>,
    pub permissions: Option<Seq<char>>,
    pub file_type: FileEntryType,
}

impl View for FileEntry {
    type V = EntryView;

    open spec fn view(&self) -> EntryView {
        EntryView {
            name: self.name@,
            size: self.size,
            modified: match self.modified {
                Option::Some(ref m) => Option::Some(m@),
                Option::None => Option::None,
            },
            permissions: match self.permissions {
                Option::Some(ref p) => Option::Some(p@),
                Option::None => Option::None,
            },
            file_type: self.file_type,
        }
    }
}

/// A raw directory entry as the transport reports it, before
/// formatting: modification time as a Unix timestamp, permissions as
/// mode bits.
#[derive(Debug, Clone)]
pub struct RawEntry {
    pub name: String,
    pub size: u64,
    pub modified: Option<u64>,
    pub permissions: Option<u32>,
    pub file_type: FileEntryType,
}

/// The mathematical content of a [`RawEntry`].
#[verifier::ext_equal]
pub ghost struct RawView {
    pub name: Seq<char>,
    pub size: u64,
    pub modified: Option<u64>,
    pub permissions: Option<u32>,
    pub file_type: FileEntryType,
}

impl View for RawEntry {
    type V = RawView;

    open spec fn view(&self) -> RawView {
        RawView {
            name: self.name@,
            size: self.size,
            modified: self.modified,
            permissions: self.permissions,
            file_type: self.file_type,
        }
    }
}

// ---------------------------------------------------------------------
// Permission strings
// ---------------------------------------------------------------------

/// One permission character: `c` when the mode bit is set, `-` when not.
pub open spec fn flag_char(mode: u32, bit: u32, c: char) -> char {
    if mode & bit != 0 {
        c
    } else {
        '-'
    }
}

/// The nine-character `rwxrwxrwx` rendering of Unix mode bits.
pub open spec fn perm_spec(mode: u32) -> Seq<char> {
    seq![
        flag_char(mode, 0o400, 'r'),
        flag_char(mode, 0o200, 'w'),
        flag_char(mode, 0o100, 'x'),
        flag_char(mode, 0o040, 'r'),
        flag_char(mode, 0o020, 'w'),
        flag_char(mode, 0o010, 'x'),
        flag_char(mode, 0o004, 'r'),
        flag_char(mode, 0o002, 'w'),
        flag_char(mode, 0o001, 'x'),
    ]
}

fn push_flag(out: &mut String, set: bool, c: &str)
    requires
        c@.len() == 1,
    ensures
        final(out)@ == old(out)@ + (if set { c@ } else { "-"@ }),
{
    proof {
        reveal_strlit("-");
    }
    if set {
        out.append(c);
    } else {
        out.append("-");
    }
}

/// Formats Unix file permission bits as a string like `rwxr-xr-x`.
pub fn format_permissions(mode: u32) -> (r: String)
    ensures
        r@ == perm_spec(mode),
{
    proof {
        reveal_strlit("r");
        reveal_strlit("w");
        reveal_strlit("x");
        reveal_strlit("-");
    }
    let mut out = String::new();
    push_flag(&mut out, mode & 0o400 != 0, "r");
    push_flag(&mut out, mode & 0o200 != 0, "w");
    push_flag(&mut out, mode & 0o100 != 0, "x");
    push_flag(&mut out, mode & 0o040 != 0, "r");
    push_flag(&mut out, mode & 0o020 != 0, "w");
    push_flag(&mut out, mode & 0o010 != 0, "x");
    push_flag(&mut out, mode & 0o004 != 0, "r");
    push_flag(&mut out, mode & 0o002 != 0, "w");
    push_flag(&mut out, mode & 0o001 != 0, "x");
    proof {
        assert(out@ =~= perm_spec(mode));
    }
    out
}

// ---------------------------------------------------------------------
// Ordering
// ---------------------------------------------------------------------

/// The case-folded collation key of one character: ASCII capitals fold
/// to their lower-case code point, everything else collates by its own
/// code point.
pub open spec fn lower_key(c: char) -> u32 {
    let v = c as u32;
    if 65 <= v && v <= 90 {
        (v + 32) as u32
    } else {
        v
    }
}

/// Case-insensitive lexicographic order on names.
pub open spec fn lex_le(a: Seq<char>, b: Seq<char>) -> bool
    decreases a.len(),
{
    if a.len() == 0 {
        true
    } else if b.len() == 0 {
        false
    } else if lower_key(a[0]) < lower_key(b[0]) {
        true
    } else if lower_key(a[0]) > lower_key(b[0]) {
        false
    } else {
        lex_le(a.drop_first(), b.drop_first())
    }
}

/// Directories come before everything else.
pub open spec fn rank(t: FileEntryType) -> int {
    match t {
        FileEntryType::Directory => 0,
        FileEntryType::File => 1,
        FileEntryType::Symlink => 1,
    }
}

/// The listing order: directories first, then case-insensitive name
/// order within each group.
pub open spec fn entry_le(a: EntryView, b: EntryView) -> bool {
    rank(a.file_type) < rank(b.file_type)
        || (rank(a.file_type) == rank(b.file_type) && lex_le(a.name, b.name))
}

/// The order is total.
pub proof fn lemma_lex_total(a: Seq<char>, b: Seq<char>)
    ensures
        lex_le(a, b) || lex_le(b, a),
    decreases a.len(),
{
    if a.len() == 0 || b.len() == 0 {
    } else if lower_key(a[0]) == lower_key(b[0]) {
        lemma_lex_total(a.drop_first(), b.drop_first());
    }
}

/// The order is transitive.
pub proof fn lemma_lex_trans(a: Seq<char>, b: Seq<char>, c: Seq<char>)
    requires
        lex_le(a, b),
        lex_le(b, c),
    ensures
        lex_le(a, c),
    decreases a.len(),
{
    if a.len() == 0 {
    } else if b.len() == 0 {
    } else if c.len() == 0 {
    } else {
        let ka = lower_key(a[0]);
        let kb = lower_key(b[0]);
        let kc = lower_key(c[0]);
        if ka == kb && kb == kc {
            lemma_lex_trans(a.drop_first(), b.drop_first(), c.drop_first());
        }
    }
}

pub proof fn lemma_entry_le_total(a: EntryView, b: EntryView)
    ensures
        entry_le(a, b) || entry_le(b, a),
{
    lemma_lex_total(a.name, b.name);
}

pub proof fn lemma_entry_le_trans(a: EntryView, b: EntryView, c: EntryView)
    requires
        entry_le(a, b),
        entry_le(b, c),
    ensures
        entry_le(a, c),
{
    if rank(a.file_type) == rank(b.file_type) && rank(b.file_type) == rank(c.file_type) {
        lemma_lex_trans(a.name, b.name, c.name);
    }
}

/// Adjacent entries are in order.
pub open spec fn sorted(s: Seq<EntryView>) -> bool {
    forall|i: int| 0 <= i < s.len() - 1 ==> entry_le(#[trigger] s[i], s[i + 1])
}

/// In a sorted listing every earlier entry precedes every later one.
pub proof fn lemma_sorted_pairwise(s: Seq<EntryView>, i: int, j: int)
    requires
        sorted(s),
        0 <= i <= j < s.len(),
    ensures
        i < j ==> entry_le(s[i], s[j]),
    decreases j - i,
{
    if i + 1 < j {
        lemma_sorted_pairwise(s, i + 1, j);
        lemma_entry_le_trans(s[i], s[i + 1], s[j]);
    }
}

/// Stable insertion: the new entry goes after every entry it does not
/// strictly precede, so equal entries keep their arrival order.
pub open spec fn insert_sorted(x: EntryView, s: Seq<EntryView>) -> Seq<EntryView>
    decreases s.len(),
{
    if s.len() == 0 {
        seq![x]
    } else if !entry_le(s[0], x) {
        seq![x] + s
    } else {
        seq![s[0]] + insert_sorted(x, s.drop_first())
    }
}

/// The listing order of a sequence of entries.
pub open spec fn sort_spec(s: Seq<EntryView>) -> Seq<EntryView>
    decreases s.len(),
{
    if s.len() == 0 {
        Seq::empty()
    } else {
        insert_sorted(s.last(), sort_spec(s.drop_last()))
    }
}

pub proof fn lemma_insert_sorted_len(x: EntryView, s: Seq<EntryView>)
    ensures
        insert_sorted(x, s).len() == s.len() + 1,
    decreases s.len(),
{
    if s.len() == 0 {
    } else if !entry_le(s[0], x) {
    } else {
        lemma_insert_sorted_len(x, s.drop_first());
    }
}

/// Inserting into a sorted listing keeps it sorted and adds exactly the
/// new entry.
pub proof fn lemma_insert_sorted_ok(x: EntryView, s: Seq<EntryView>)
    requires
        sorted(s),
    ensures
        sorted(insert_sorted(x, s)),
        insert_sorted(x, s).to_multiset() == s.to_multiset().insert(x),
    decreases s.len(),
{
    broadcast use vstd::seq_lib::group_to_multiset_ensures;

    let r = insert_sorted(x, s);
    lemma_insert_sorted_len(x, s);
    if s.len() == 0 {
        assert(r =~= Seq::empty().push(x));
        assert(r.to_multiset() == s.to_multiset().insert(x));
    } else if !entry_le(s[0], x) {
        lemma_entry_le_total(s[0], x);
        assert(r =~= seq![x] + s);
        assert forall|i: int| 0 <= i < r.len() - 1 implies entry_le(#[trigger] r[i], r[i + 1]) by {
            if i == 0 {
                assert(entry_le(x, s[0]));
            } else {
                assert(entry_le(s[i - 1], s[i]));
            }
        }
        assert(r.to_multiset() == s.to_multiset().insert(x)) by {
            assert(r =~= s.insert(0, x));
            lemma_multiset_of_insert(s, x, 0);
        }
    } else {
        let tail = s.drop_first();
        assert(sorted(tail)) by {
            assert forall|i: int| 0 <= i < tail.len() - 1 implies
                entry_le(#[trigger] tail[i], tail[i + 1]) by {
                assert(entry_le(s[i + 1], s[i + 2]));
            }
        }
        lemma_insert_sorted_ok(x, tail);
        let rt = insert_sorted(x, tail);
        lemma_insert_sorted_len(x, tail);
        assert(r == seq![s[0]] + rt);
        // Head stays ahead of whatever now leads the tail.
        assert(entry_le(s[0], rt[0])) by {
            if tail.len() == 0 {
                assert(rt == seq![x]);
            } else if !entry_le(tail[0], x) {
                assert(rt[0] == x);
            } else {
                assert(rt[0] == tail[0]);
                assert(entry_le(s[0], s[1]));
            }
        }
        assert forall|i: int| 0 <= i < r.len() - 1 implies entry_le(#[trigger] r[i], r[i + 1]) by {
            if i == 0 {
                assert(r[0] == s[0] && r[1] == rt[0]);
            } else {
                assert(r[i] == rt[i - 1] && r[i + 1] == rt[i]);
                assert(entry_le(rt[i - 1], rt[i]));
            }
        }
        assert(r.to_multiset() == s.to_multiset().insert(x)) by {
            assert(r =~= rt.insert(0, s[0]));
            lemma_multiset_of_insert(rt, s[0], 0);
            assert(s =~= tail.insert(0, s[0]));
            lemma_multiset_of_insert(tail, s[0], 0);
            assert(rt.to_multiset() == tail.to_multiset().insert(x));
            assert(r.to_multiset() =~= s.to_multiset().insert(x));
        }
    }
}

proof fn lemma_multiset_of_insert(s: Seq<EntryView>, x: EntryView, i: int)
    requires
        0 <= i <= s.len(),
    ensures
        s.insert(i, x).to_multiset() == s.to_multiset().insert(x),
    decreases s.len() - i,
{
    broadcast use vstd::seq_lib::group_to_multiset_ensures;

    if i == s.len() {
        assert(s.insert(i, x) =~= s.push(x));
    } else {
        // Inserting before the end equals inserting into the shorter
        // prefix and pushing the last element back on.
        let t = s.drop_last();
        lemma_multiset_of_insert(t, x, i);
        assert(s.insert(i, x) =~= t.insert(i, x).push(s.last()));
        assert(s =~= t.push(s.last()));
        assert(s.insert(i, x).to_multiset() =~= s.to_multiset().insert(x));
    }
}

/// The listing order is sorted and is a permutation of its input.
pub proof fn lemma_sort_spec_ok(s: Seq<EntryView>)
    ensures
        sorted(sort_spec(s)),
        sort_spec(s).to_multiset() == s.to_multiset(),
        sort_spec(s).len() == s.len(),
    decreases s.len(),
{
    broadcast use vstd::seq_lib::group_to_multiset_ensures;

    if s.len() == 0 {
    } else {
        lemma_sort_spec_ok(s.drop_last());
        lemma_insert_sorted_ok(s.last(), sort_spec(s.drop_last()));
        lemma_insert_sorted_len(s.last(), sort_spec(s.drop_last()));
        assert(s =~= s.drop_last().push(s.last()));
        assert(s.to_multiset() =~= s.drop_last().to_multiset().insert(s.last()));
    }
}

proof fn lemma_insert_after_all(x: EntryView, s: Seq<EntryView>)
    requires
        forall|i: int| 0 <= i < s.len() ==> entry_le(#[trigger] s[i], x),
    ensures
        insert_sorted(x, s) == s.push(x),
    decreases s.len(),
{
    if s.len() == 0 {
        assert(insert_sorted(x, s) =~= s.push(x));
    } else {
        assert(entry_le(s[0], x));
        let tail = s.drop_first();
        lemma_insert_after_all(x, tail);
        assert(insert_sorted(x, s) =~= s.push(x));
    }
}

/// Law (idempotence): ordering an already ordered listing changes
/// nothing; with [`lemma_sort_spec_ok`], listing the same directory
/// contents twice therefore yields the identical order.
pub proof fn lemma_sort_idempotent(s: Seq<EntryView>)
    requires
        sorted(s),
    ensures
        sort_spec(s) == s,
    decreases s.len(),
{
    if s.len() == 0 {
        assert(sort_spec(s) =~= s);
    } else {
        let t = s.drop_last();
        assert(sorted(t)) by {
            assert forall|i: int| 0 <= i < t.len() - 1 implies
                entry_le(#[trigger] t[i], t[i + 1]) by {
                assert(entry_le(s[i], s[i + 1]));
            }
        }
        lemma_sort_idempotent(t);
        assert forall|i: int| 0 <= i < t.len() implies entry_le(#[trigger] t[i], s.last()) by {
            lemma_sorted_pairwise(s, i, s.len() - 1);
        }
        lemma_insert_after_all(s.last(), t);
        assert(sort_spec(s) =~= s);
    }
}

// ---------------------------------------------------------------------
// Executable ordering and sort
// ---------------------------------------------------------------------

fn lower_key_exec(c: char) -> (r: u32)
    ensures
        r == lower_key(c),
{
    let v = c as u32;
    if 65 <= v && v <= 90 {
        v + 32
    } else {
        v
    }
}

fn lex_le_exec(a: &str, b: &str) -> (r: bool)
    ensures
        r == lex_le(a@, b@),
{
    let na = a.unicode_len();
    let nb = b.unicode_len();
    let mut i: usize = 0;
    proof {
        assert(a@.skip(0) =~= a@);
        assert(b@.skip(0) =~= b@);
    }
    while i < na && i < nb
        invariant
            na == a@.len(),
            nb == b@.len(),
            i <= na,
            i <= nb,
            lex_le(a@, b@) == lex_le(a@.skip(i as int), b@.skip(i as int)),
        decreases na - i,
    {
        let ka = lower_key_exec(a.get_char(i));
        let kb = lower_key_exec(b.get_char(i));
        proof {
            assert(a@.skip(i as int)[0] == a@[i as int]);
            assert(b@.skip(i as int)[0] == b@[i as int]);
            assert(a@.skip(i as int).drop_first() =~= a@.skip(i as int + 1));
            assert(b@.skip(i as int).drop_first() =~= b@.skip(i as int + 1));
        }
        if ka < kb {
            return true;
        }
        if ka > kb {
            return false;
        }
        i += 1;
    }
    proof {
        if i >= na {
            assert(a@.skip(i as int).len() == 0);
        } else {
            assert(b@.skip(i as int).len() == 0);
            assert(a@.skip(i as int).len() > 0);
        }
    }
    i >= na
}

/// Whether `a` comes no later than `b` in the listing order.
pub fn entry_le_exec(a: &FileEntry, b: &FileEntry) -> (r: bool)
    ensures
        r == entry_le(a@, b@),
{
    let ra: u32 = match a.file_type {
        FileEntryType::Directory => 0,
        _ => 1,
    };
    let rb: u32 = match b.file_type {
        FileEntryType::Directory => 0,
        _ => 1,
    };
    if ra < rb {
        true
    } else if ra > rb {
        false
    } else {
        lex_le_exec(a.name.as_str(), b.name.as_str())
    }
}

proof fn lemma_insert_at(x: EntryView, s: Seq<EntryView>, p: int)
    requires
        0 <= p <= s.len(),
        forall|i: int| 0 <= i < p ==> entry_le(#[trigger] s[i], x),
        p < s.len() ==> !entry_le(s[p], x),
    ensures
        insert_sorted(x, s) == s.take(p) + seq![x] + s.skip(p),
    decreases s.len(),
{
    if p == 0 {
        if s.len() == 0 {
            assert(insert_sorted(x, s) =~= s.take(0) + seq![x] + s.skip(0));
        } else {
            assert(insert_sorted(x, s) =~= s.take(0) + seq![x] + s.skip(0));
        }
    } else {
        assert(entry_le(s[0], x));
        let tail = s.drop_first();
        assert forall|i: int| 0 <= i < p - 1 implies entry_le(#[trigger] tail[i], x) by {
            assert(entry_le(s[i + 1], x));
        }
        lemma_insert_at(x, tail, p - 1);
        assert(insert_sorted(x, s) =~= s.take(p) + seq![x] + s.skip(p));
    }
}

/// Sorts a listing: directories first, then case-insensitive name
/// order, equal entries keeping their arrival order.
pub fn sort_entries(entries: Vec<FileEntry>) -> (r: Vec<FileEntry>)
    ensures
        r@.map_values(|e: FileEntry| e@) == sort_spec(entries@.map_values(|e: FileEntry| e@)),
{
    let ghost all = entries@.map_values(|e: FileEntry| e@);
    let mut rest = entries;
    let mut out: Vec<FileEntry> = Vec::new();
    let ghost k: int = 0;
    proof {
        assert(out@.map_values(|e: FileEntry| e@) =~= sort_spec(all.take(0)));
        assert(all.skip(0) =~= rest@.map_values(|e: FileEntry| e@));
    }
    while rest.len() > 0
        invariant
            0 <= k <= all.len(),
            rest@.map_values(|e: FileEntry| e@) == all.skip(k),
            out@.map_values(|e: FileEntry| e@) == sort_spec(all.take(k)),
        decreases rest@.len(),
    {
        proof {
            assert(all.skip(k).len() == all.len() - k);
        }
        let ghost rpre: Seq<FileEntry> = rest@;
        let x = rest.remove(0);
        proof {
            assert(x == rpre[0]);
            assert(x@ == rpre.map_values(|e: FileEntry| e@)[0]);
            assert(x@ == all[k]);
            assert forall|i: int| 0 <= i < rest@.len() implies
                rest@.map_values(|e: FileEntry| e@)[i] == (#[trigger] all.skip(k + 1)[i]) by {
                assert(rest@[i] == rpre[i + 1]);
                assert(rpre.map_values(|e: FileEntry| e@)[i + 1] == rpre[i + 1]@);
            }
            assert(rest@.map_values(|e: FileEntry| e@) =~~= all.skip(k + 1));
        }
        // Find the stable insertion point: after every entry that does
        // not come after x.
        let mut p: usize = 0;
        let n = out.len();
        loop
            invariant_except_break
                n == out@.len(),
                0 <= p <= n,
                forall|i: int| 0 <= i < p ==> entry_le((#[trigger] out@[i])@, x@),
            ensures
                n == out@.len(),
                0 <= p <= n,
                forall|i: int| 0 <= i < p ==> entry_le((#[trigger] out@[i])@, x@),
                p < n ==> !entry_le(out@[p as int]@, x@),
            decreases n - p,
        {
            if p >= n {
                break;
            }
            let le = entry_le_exec(&out[p], &x);
            if !le {
                break;
            }
            p += 1;
        }
        let ghost opre = out@.map_values(|e: FileEntry| e@);
        proof {
            assert forall|i: int| 0 <= i < p implies entry_le(#[trigger] opre[i], x@) by {
                assert(opre[i] == out@[i]@);
            }
            assert(p < opre.len() ==> !entry_le(opre[p as int], x@));
        }
        out.insert(p, x);
        proof {
            lemma_insert_at(x@, opre, p as int);
            assert(out@.map_values(|e: FileEntry| e@) =~=
                opre.take(p as int) + seq![x@] + opre.skip(p as int));
            assert(all.take(k + 1).drop_last() =~= all.take(k));
            assert(all.take(k + 1).last() == all[k]);
            assert(sort_spec(all.take(k + 1)) == insert_sorted(all[k], sort_spec(all.take(k))));
            assert(out@.map_values(|e: FileEntry| e@) =~= sort_spec(all.take(k + 1)));
        }
        proof {
            k = k + 1;
        }
    }
    proof {
        assert(all.take(k) =~= all);
    }
    out
}

// ---------------------------------------------------------------------
// Building a listing from raw transport entries
// ---------------------------------------------------------------------

/// The formatted entry a raw entry becomes.
pub open spec fn convert_spec(r: RawView) -> EntryView {
    EntryView {
        name: r.name,
        size: r.size,
        modified: match r.modified {
            Option::Some(t) => Option::Some(timestamp_spec(t as int)),
            Option::None => Option::None,
        },
        permissions: match r.permissions {
            Option::Some(p) => Option::Some(perm_spec(p)),
            Option::None => Option::None,
        },
        file_type: r.file_type,
    }
}

/// The formatted entries of a raw listing, `.` and `..` dropped, in
/// arrival order.
pub open spec fn listing_of(raws: Seq<RawView>) -> Seq<EntryView>
    decreases raws.len(),
{
    if raws.len() == 0 {
        Seq::empty()
    } else {
        let head: Seq<EntryView> = if raws[0].name == "."@ || raws[0].name == ".."@ {
            Seq::empty()
        } else {
            seq![convert_spec(raws[0])]
        };
        head + listing_of(raws.drop_first())
    }
}

/// Builds the listing the caller sees from what the transport reported:
/// formats times and permissions, drops the `.` and `..` entries, and
/// orders the result deterministically.
pub fn build_listing(raws: Vec<RawEntry>) -> (r: Vec<FileEntry>)
    ensures
        r@.map_values(|e: FileEntry| e@)
            == sort_spec(listing_of(raws@.map_values(|e: RawEntry| e@))),
{
    let ghost all = raws@.map_values(|e: RawEntry| e@);
    let mut rest = raws;
    let mut converted: Vec<FileEntry> = Vec::new();
    let ghost k: int = 0;
    proof {
        assert(all.skip(0) =~= all);
        assert(converted@.map_values(|e: FileEntry| e@) =~= Seq::<EntryView>::empty());
        assert(Seq::<EntryView>::empty() + listing_of(all) =~= listing_of(all));
        assert(all.skip(0) =~= rest@.map_values(|e: RawEntry| e@));
    }
    while rest.len() > 0
        invariant
            0 <= k <= all.len(),
            rest@.map_values(|e: RawEntry| e@) == all.skip(k),
            converted@.map_values(|e: FileEntry| e@) + listing_of(all.skip(k)) == listing_of(all),
        decreases rest@.len(),
    {
        proof {
            assert(all.skip(k).len() == all.len() - k);
        }
        let ghost rpre: Seq<RawEntry> = rest@;
        let x = rest.remove(0);
        proof {
            assert(x == rpre[0]);
            assert(x@ == rpre.map_values(|e: RawEntry| e@)[0]);
            assert(x@ == all[k]);
            assert forall|i: int| 0 <= i < rest@.len() implies
                rest@.map_values(|e: RawEntry| e@)[i] == (#[trigger] all.skip(k + 1)[i]) by {
                assert(rest@[i] == rpre[i + 1]);
                assert(rpre.map_values(|e: RawEntry| e@)[i + 1] == rpre[i + 1]@);
            }
            assert(rest@.map_values(|e: RawEntry| e@) =~~= all.skip(k + 1));
            assert(all.skip(k).drop_first() =~= all.skip(k + 1));
        }
        let skip = str_eq(x.name.as_str(), ".") || str_eq(x.name.as_str(), "..");
        if !skip {
            let entry = FileEntry {
                name: x.name,
                size: x.size,
                modified: match x.modified {
                    Some(t) => Some(chrono_from_unix_timestamp(t)),
                    None => None,
                },
                permissions: match x.permissions {
                    Some(p) => Some(format_permissions(p)),
                    None => None,
                },
                file_type: x.file_type,
            };
            let ghost cpre = converted@.map_values(|e: FileEntry| e@);
            converted.push(entry);
            proof {
                assert(entry@ == convert_spec(all[k]));
                assert(converted@.map_values(|e: FileEntry| e@) =~= cpre.push(convert_spec(all[k])));
                assert(converted@.map_values(|e: FileEntry| e@) + listing_of(all.skip(k + 1))
                    =~= listing_of(all));
            }
        } else {
            proof {
                assert(converted@.map_values(|e: FileEntry| e@) + listing_of(all.skip(k + 1))
                    =~= listing_of(all));
            }
        }
        proof {
            k = k + 1;
        }
    }
    proof {
        assert(listing_of(all.skip(k)) =~= Seq::<EntryView>::empty());
        assert(converted@.map_values(|e: FileEntry| e@) =~= listing_of(all));
    }
    sort_entries(converted)
}

} // verus!
