//! Parsers for the text the statistics layer scrapes over SSH.
//!
//! The remote side answers with plain text: `ps aux` rows, `ss` socket
//! rows, comma-joined interface counters read from `/sys/class/net`,
//! and pipe-joined `df` rows. Each parser here reads one line into its
//! record; a line that does not carry enough fields, or whose numeric
//! fields do not parse, yields nothing and is skipped by the caller.

use vstd::prelude::*;
use crate::commands::{DiskInfo, NetworkConnection, NetworkInterface, ProcessInfo};
use crate::strutil::{
    join_spaces, join_tokens, parse_u32_or_zero, parse_u32_spec, parse_u64_checked,
    parse_u64_opt_spec, split_char_spec, split_on_char, str_eq, strip_trailing,
    strip_trailing_spec, tokenize, tokens_spec,
};

verus! {

/// Parses one `ps aux` row (at least eleven whitespace-separated
/// fields): owner, process id, processor and memory shares, and the
/// command line, which keeps all remaining fields.
pub fn parse_process_line(line: &str) -> (r: Option<ProcessInfo>)
    ensures
        ({
            let toks = tokens_spec(line@);
            match r {
                Option::Some(p) => {
                    &&& toks.len() >= 11
                    &&& p.user@ == toks[0]
                    &&& p.pid@ == toks[1]
                    &&& p.cpu@ == toks[2]
                    &&& p.mem@ == toks[3]
                    &&& p.command@ == join_spaces(toks.skip(10))
                },
                Option::None => toks.len() < 11,
            }
        }),
{
    let toks = tokenize(line);
    if toks.len() < 11 {
        return None;
    }
    proof {
        assert(toks@.map_values(|t: String| t@)[0] == toks@[0]@);
        assert(toks@.map_values(|t: String| t@)[1] == toks@[1]@);
        assert(toks@.map_values(|t: String| t@)[2] == toks@[2]@);
        assert(toks@.map_values(|t: String| t@)[3] == toks@[3]@);
    }
    let command = join_tokens(&toks, 10, toks.len());
    proof {
        let tv = tokens_spec(line@);
        assert(tv.subrange(10, tv.len() as int) =~= tv.skip(10));
    }
    Some(ProcessInfo {
        user: toks[0].clone(),
        pid: toks[1].clone(),
        cpu: toks[2].clone(),
        mem: toks[3].clone(),
        command,
    })
}

/// Parses one interface-counter line, `name,rx_bytes,tx_bytes,
/// rx_packets,tx_packets`: exactly five comma-separated fields whose
/// four counters all parse.
pub fn parse_network_stats_line(line: &str) -> (r: Option<NetworkInterface>)
    ensures
        ({
            let fs = split_char_spec(line@, ',');
            match r {
                Option::Some(n) => {
                    &&& fs.len() == 5
                    &&& n.name@ == fs[0]
                    &&& Option::Some(n.rx_bytes) == parse_u64_opt_spec(fs[1])
                    &&& Option::Some(n.tx_bytes) == parse_u64_opt_spec(fs[2])
                    &&& Option::Some(n.rx_packets) == parse_u64_opt_spec(fs[3])
                    &&& Option::Some(n.tx_packets) == parse_u64_opt_spec(fs[4])
                },
                Option::None => fs.len() != 5 || parse_u64_opt_spec(fs[1]) is None
                    || parse_u64_opt_spec(fs[2]) is None || parse_u64_opt_spec(fs[3]) is None
                    || parse_u64_opt_spec(fs[4]) is None,
            }
        }),
{
    let fields = split_on_char(line, ',');
    if fields.len() != 5 {
        return None;
    }
    proof {
        assert(fields@.map_values(|t: String| t@)[0] == fields@[0]@);
        assert(fields@.map_values(|t: String| t@)[1] == fields@[1]@);
        assert(fields@.map_values(|t: String| t@)[2] == fields@[2]@);
        assert(fields@.map_values(|t: String| t@)[3] == fields@[3]@);
        assert(fields@.map_values(|t: String| t@)[4] == fields@[4]@);
    }
    let rx_bytes = match parse_u64_checked(fields[1].as_str()) {
        Some(v) => v,
        None => {
            return None;
        },
    };
    let tx_bytes = match parse_u64_checked(fields[2].as_str()) {
        Some(v) => v,
        None => {
            return None;
        },
    };
    let rx_packets = match parse_u64_checked(fields[3].as_str()) {
        Some(v) => v,
        None => {
            return None;
        },
    };
    let tx_packets = match parse_u64_checked(fields[4].as_str()) {
        Some(v) => v,
        None => {
            return None;
        },
    };
    Some(NetworkInterface {
        name: fields[0].clone(),
        rx_bytes,
        tx_bytes,
        rx_packets,
        tx_packets,
    })
}

/// Parses one `ss -tunp` row (at least six whitespace-separated
/// fields): protocol, receive queue, then the address pair; a non-zero
/// receive-queue field shows as an established state. A seventh field,
/// when present, names the owning process.
pub fn parse_connection_line(line: &str) -> (r: Option<NetworkConnection>)
    ensures
        ({
            let toks = tokens_spec(line@);
            match r {
                Option::Some(c) => {
                    &&& toks.len() >= 6
                    &&& c.protocol@ == toks[0]
                    &&& c.local_address@ == toks[4]
                    &&& c.remote_address@ == toks[5]
                    &&& c.state@ == (if toks[1] != "0"@ {
                        "ESTAB"@
                    } else {
                        toks[1]
                    })
                    &&& c.pid_program@ == (if toks.len() >= 7 {
                        toks[6]
                    } else {
                        Seq::<char>::empty()
                    })
                },
                Option::None => toks.len() < 6,
            }
        }),
{
    let toks = tokenize(line);
    if toks.len() < 6 {
        return None;
    }
    proof {
        assert(toks@.map_values(|t: String| t@)[0] == toks@[0]@);
        assert(toks@.map_values(|t: String| t@)[1] == toks@[1]@);
        assert(toks@.map_values(|t: String| t@)[4] == toks@[4]@);
        assert(toks@.map_values(|t: String| t@)[5] == toks@[5]@);
    }
    let state = if !str_eq(toks[1].as_str(), "0") {
        "ESTAB".to_owned()
    } else {
        toks[1].clone()
    };
    let pid_program = if toks.len() >= 7 {
        proof {
            assert(toks@.map_values(|t: String| t@)[6] == toks@[6]@);
        }
        toks[6].clone()
    } else {
        String::new()
    };
    Some(NetworkConnection {
        protocol: toks[0].clone(),
        local_address: toks[4].clone(),
        remote_address: toks[5].clone(),
        state,
        pid_program,
    })
}

/// Parses one `df` row joined as
/// `filesystem|mountpoint|size|used|avail|use%`: exactly six
/// pipe-separated fields; the percentage keeps its digits only.
pub fn parse_disk_line(line: &str) -> (r: Option<DiskInfo>)
    ensures
        ({
            let fs = split_char_spec(line@, '|');
            match r {
                Option::Some(d) => {
                    &&& fs.len() == 6
                    &&& d.filesystem@ == fs[0]
                    &&& d.path@ == fs[1]
                    &&& d.total@ == fs[2]
                    &&& d.used@ == fs[3]
                    &&& d.available@ == fs[4]
                    &&& d.usage == parse_u32_spec(strip_trailing_spec(fs[5], '%'))
                },
                Option::None => fs.len() != 6,
            }
        }),
{
    let fields = split_on_char(line, '|');
    if fields.len() != 6 {
        return None;
    }
    proof {
        assert(fields@.map_values(|t: String| t@)[0] == fields@[0]@);
        assert(fields@.map_values(|t: String| t@)[1] == fields@[1]@);
        assert(fields@.map_values(|t: String| t@)[2] == fields@[2]@);
        assert(fields@.map_values(|t: String| t@)[3] == fields@[3]@);
        assert(fields@.map_values(|t: String| t@)[4] == fields@[4]@);
        assert(fields@.map_values(|t: String| t@)[5] == fields@[5]@);
    }
    let usage = parse_u32_or_zero(strip_trailing(fields[5].as_str(), '%'));
    Some(DiskInfo {
        filesystem: fields[0].clone(),
        path: fields[1].clone(),
        total: fields[2].clone(),
        used: fields[3].clone(),
        available: fields[4].clone(),
        usage,
    })
}

} // verus!
