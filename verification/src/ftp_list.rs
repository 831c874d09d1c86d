//! Parsing of Unix-style FTP `LIST` lines.
//!
//! A full listing line has at least nine whitespace-separated fields:
//! permissions, link count, owner, group, size, three date fields, and
//! the name (which may itself contain spaces). Sparser lines degrade
//! gracefully: with too few separators only the last word is taken as
//! a name; with separators but fewer than nine fields the permission
//! field still decides the entry type. For symlinks the name stops
//! before the first `->` field.

use vstd::prelude::*;
use crate::listing::{EntryView, FileEntry, FileEntryType};
use crate::strutil::{
    join_spaces, join_tokens, parse_u64_or_zero, parse_u64_spec, str_eq, str_trim, tokenize,
    tokens_spec, trim_spec, ws_count, count_ws, skip_ws_from, token_end, lemma_trim_props,
    lemma_token_end_bounds,
};

verus! {

/// The type a permission field announces: `d` for a directory, `l` for
/// a symlink, anything else for a plain file.
pub open spec fn type_of_perms(p: Seq<char>) -> FileEntryType {
    if p.len() > 0 && p[0] == 'd' {
        FileEntryType::Directory
    } else if p.len() > 0 && p[0] == 'l' {
        FileEntryType::Symlink
    } else {
        FileEntryType::File
    }
}

/// The fields before the first `->` field.
pub open spec fn cut_arrow(ts: Seq<Seq<char>>) -> Seq<Seq<char>>
    decreases ts.len(),
{
    if ts.len() == 0 {
        ts
    } else if ts[0] == "->"@ {
        Seq::empty()
    } else {
        seq![ts[0]] + cut_arrow(ts.drop_first())
    }
}

proof fn lemma_cut_arrow_at(ts: Seq<Seq<char>>, k: int)
    requires
        0 <= k <= ts.len(),
        forall|i: int| 0 <= i < k ==> (#[trigger] ts[i]) != "->"@,
        k < ts.len() ==> ts[k] == "->"@,
    ensures
        cut_arrow(ts) == ts.take(k),
    decreases ts.len(),
{
    if ts.len() == 0 {
        assert(cut_arrow(ts) =~= ts.take(k));
    } else if k == 0 {
        assert(cut_arrow(ts) =~= ts.take(0));
    } else {
        let tail = ts.drop_first();
        assert forall|i: int| 0 <= i < k - 1 implies (#[trigger] tail[i]) != "->"@ by {
            assert(ts[i + 1] != "->"@);
        }
        lemma_cut_arrow_at(tail, k - 1);
        assert(cut_arrow(ts) =~= ts.take(k));
    }
}

/// What a `LIST` line denotes, if anything: the entry with its name,
/// size, date fields and type, exactly as the grammar above reads them.
pub open spec fn parse_list_line_spec(s: Seq<char>) -> Option<EntryView> {
    let t = trim_spec(s);
    let toks = tokens_spec(t);
    if t.len() == 0 {
        Option::None
    } else if ws_count(t) < 8 {
        Option::Some(EntryView {
            name: toks.last(),
            size: 0,
            modified: Option::None,
            permissions: Option::None,
            file_type: FileEntryType::File,
        })
    } else if toks.len() < 9 {
        Option::Some(EntryView {
            name: toks.last(),
            size: 0,
            modified: Option::None,
            permissions: Option::Some(toks[0]),
            file_type: type_of_perms(toks[0]),
        })
    } else {
        let kind = type_of_perms(toks[0]);
        let name_fields = if kind == FileEntryType::Symlink {
            cut_arrow(toks.skip(8))
        } else {
            toks.skip(8)
        };
        Option::Some(EntryView {
            name: join_spaces(name_fields),
            size: parse_u64_spec(toks[4]),
            modified: Option::Some(toks[5] + " "@ + toks[6] + " "@ + toks[7]),
            permissions: Option::Some(toks[0]),
            file_type: kind,
        })
    }
}

/// Parses one line of a Unix-style FTP `LIST` reply.
pub fn parse_ftp_list_line(line: &str) -> (r: Option<FileEntry>)
    ensures
        match parse_list_line_spec(line@) {
            Option::None => r is None,
            Option::Some(ev) => r matches Option::Some(e) && e@ == ev,
        },
{
    let t = str_trim(line);
    let tn = t.unicode_len();
    if tn == 0 {
        return None;
    }
    let toks = tokenize(t);
    let ghost tv = tokens_spec(t@);
    proof {
        lemma_trim_props(line@);
        // A non-empty trimmed line starts with a word, so there is at
        // least one field.
        assert(skip_ws_from(t@, 0) == 0);
        lemma_token_end_bounds(t@, 0);
        assert(tv.len() >= 1);
        assert(tv[0] == t@.subrange(0, token_end(t@, 0)));
        assert(tv[0].len() > 0);
        assert(toks@.map_values(|x: String| x@)[0] == toks@[0]@);
        assert(toks@.map_values(|x: String| x@)[tv.len() - 1] == toks@[tv.len() - 1]@);
    }
    let wsc = count_ws(t);
    if wsc < 8 {
        let name = toks[toks.len() - 1].clone();
        let e = FileEntry {
            name,
            size: 0,
            modified: None,
            permissions: None,
            file_type: FileEntryType::File,
        };
        proof {
            assert(e@ =~= parse_list_line_spec(line@)->Some_0);
        }
        return Some(e);
    }
    let perms = toks[0].clone();
    let c0 = perms.as_str().get_char(0);
    let kind = if c0 == 'd' {
        FileEntryType::Directory
    } else if c0 == 'l' {
        FileEntryType::Symlink
    } else {
        FileEntryType::File
    };
    proof {
        assert(kind == type_of_perms(tv[0]));
    }
    if toks.len() < 9 {
        let name = toks[toks.len() - 1].clone();
        let e = FileEntry {
            name,
            size: 0,
            modified: None,
            permissions: Some(perms),
            file_type: kind,
        };
        proof {
            assert(e@ =~= parse_list_line_spec(line@)->Some_0);
        }
        return Some(e);
    }
    proof {
        assert(toks@.map_values(|x: String| x@)[4] == toks@[4]@);
        assert(toks@.map_values(|x: String| x@)[5] == toks@[5]@);
        assert(toks@.map_values(|x: String| x@)[6] == toks@[6]@);
        assert(toks@.map_values(|x: String| x@)[7] == toks@[7]@);
    }
    let size = parse_u64_or_zero(toks[4].as_str());
    let mut modified = toks[5].clone();
    modified.append(" ");
    modified.append(toks[6].as_str());
    modified.append(" ");
    modified.append(toks[7].as_str());
    // The name fields: everything from the ninth field on; for a
    // symlink, only up to the `->` separator.
    let n = toks.len();
    let mut end: usize = n;
    let ghost nts = tv.skip(8);
    if matches!(kind, FileEntryType::Symlink) {
        let mut j: usize = 8;
        loop
            invariant_except_break
                n == toks@.len(),
                toks@.map_values(|x: String| x@) == tv,
                8 <= j <= n,
                forall|i: int| 8 <= i < j ==> (#[trigger] tv[i]) != "->"@,
            ensures
                8 <= j <= n,
                n == toks@.len(),
                toks@.map_values(|x: String| x@) == tv,
                forall|i: int| 8 <= i < j ==> (#[trigger] tv[i]) != "->"@,
                j < n ==> tv[j as int] == "->"@,
            decreases n - j,
        {
            if j >= n {
                break;
            }
            proof {
                assert(toks@.map_values(|x: String| x@)[j as int] == toks@[j as int]@);
            }
            if str_eq(toks[j].as_str(), "->") {
                break;
            }
            j += 1;
        }
        end = j;
    }
    proof {
        let k = end - 8;
        if matches!(kind, FileEntryType::Symlink) {
            assert forall|i: int| 0 <= i < k implies (#[trigger] nts[i]) != "->"@ by {
                assert(tv[i + 8] != "->"@);
            }
            assert(k < nts.len() ==> nts[k as int] == "->"@) by {
                if k < nts.len() {
                    assert(tv[end as int] == "->"@);
                }
            }
            lemma_cut_arrow_at(nts, k as int);
            assert(cut_arrow(nts) == nts.take(k as int));
        }
    }
    let ghost name_fields: Seq<Seq<char>> = nts.take(end - 8);
    let name = join_tokens(&toks, 8, end);
    proof {
        assert(toks@.map_values(|x: String| x@).subrange(8, end as int) =~= name_fields);
    }
    let e = FileEntry {
        name,
        size,
        modified: Some(modified),
        permissions: Some(perms),
        file_type: kind,
    };
    proof {
        assert(name_fields =~= (if kind == FileEntryType::Symlink {
            cut_arrow(tv.skip(8))
        } else {
            tv.skip(8)
        }));
        assert(e@ =~= parse_list_line_spec(line@)->Some_0);
    }
    Some(e)
}

} // verus!
