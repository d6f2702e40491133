//! Reading and writing the persisted artifacts: the gossip configuration,
//! the visor configuration, and the structured peer-source responses.
//! Fields of the gossip configuration that this system does not model are
//! carried through as raw bytes and re-emitted verbatim.

use vstd::prelude::*;
use vstd::string::StringSliceAdditionalSpecFns;
use crate::chain::HyperliquidChain;
use crate::gossip::{NodeIp, OverrideGossipConfig, RawField};
use crate::ip::{push_decimal, spec_decimal, spec_parse_ipv4, parse_ipv4, spec_ipv4_text, Ipv4};
use crate::json::{
    bytes_eq, bytes_eq_lowered, bytes_range, fields_view, items_view, lower_bytes, parse_array,
    lower_byte, parse_object, spec_key_end, key_end, spec_parse_array, spec_parse_object,
    spec_rev_ws_start, spec_trim_ws, trim_ws,
};
use crate::report::{ErrorKind, Report};
use crate::scan::{digits_value, digits_value_of, digit_run_end, spec_digit_run_end, spec_ws_run_end};

verus! {

/// The abstract content of a gossip configuration document.
pub struct GossipView {
    pub root_peers: Seq<Ipv4>,
    pub try_new_peers: bool,
    pub chain: HyperliquidChain,
    pub n_gossip_peers: Option<u16>,
    pub unknown: Seq<(Seq<u8>, Seq<u8>)>,
}

impl OverrideGossipConfig {
    /// What this in-memory configuration denotes.
    pub open spec fn view_of(&self) -> GossipView {
        GossipView {
            root_peers: self.root_node_ips@.map_values(|n: NodeIp| n.ip),
            try_new_peers: self.try_new_peers,
            chain: self.chain,
            n_gossip_peers: self.n_gossip_peers,
            unknown: fields_view(self.unknown@),
        }
    }
}

/// A boolean value: `true` or `false`, whitespace allowed around it.
pub open spec fn spec_parse_bool_text(v: Seq<u8>) -> Option<bool> {
    let t = spec_trim_ws(v);
    if t == "true".spec_bytes() {
        Some(true)
    } else if t == "false".spec_bytes() {
        Some(false)
    } else {
        None
    }
}

pub fn parse_bool_text(v: &[u8]) -> (r: Option<bool>)
    ensures
        r == spec_parse_bool_text(v@),
{
    let (a, b) = trim_ws(v);
    let t = if a <= b {
        bytes_range(v, a, b)
    } else {
        Vec::new()
    };
    if bytes_eq(t.as_slice(), "true".as_bytes()) {
        Some(true)
    } else if bytes_eq(t.as_slice(), "false".as_bytes()) {
        Some(false)
    } else {
        None
    }
}

/// An unsigned sixteen-bit decimal number: digits only, no leading zero
/// unless the number is zero itself, value at most 65535.
pub open spec fn spec_parse_u16_text(v: Seq<u8>) -> Option<u16> {
    let t = spec_trim_ws(v);
    if 1 <= t.len() <= 5 && spec_digit_run_end(t, 0) == t.len() && (t[0] == 48 ==> t.len() == 1)
        && digits_value(t) <= 65535 {
        Some(digits_value(t) as u16)
    } else {
        None
    }
}

pub fn parse_u16_text(v: &[u8]) -> (r: Option<u16>)
    ensures
        r == spec_parse_u16_text(v@),
{
    let (a, b) = trim_ws(v);
    if a > b {
        return None;
    }
    let t = bytes_range(v, a, b);
    let n = t.len();
    if n < 1 || n > 5 {
        return None;
    }
    proof {
        crate::scan::lemma_digit_run_end(t@, 0);
    }
    let e = digit_run_end(t.as_slice(), 0);
    if e != n {
        return None;
    }
    if t[0] == 48 && n != 1 {
        return None;
    }
    proof {
        assert(t@.subrange(0, n as int) =~= t@);
    }
    let value = digits_value_of(t.as_slice(), 0, n);
    if value <= 65535 {
        Some(value as u16)
    } else {
        None
    }
}

/// A quoted string with no escapes and no inner quote: its inner bytes.
pub open spec fn spec_parse_quoted(v: Seq<u8>) -> Option<Seq<u8>> {
    let t = spec_trim_ws(v);
    if t.len() >= 2 && t[0] == 34 && spec_key_end(t, 1) == Some(t.len() - 1) {
        Some(t.subrange(1, t.len() - 1))
    } else {
        None
    }
}

pub fn parse_quoted(v: &[u8]) -> (r: Option<Vec<u8>>)
    ensures
        match r {
            Some(inner) => spec_parse_quoted(v@) == Some(inner@),
            None => spec_parse_quoted(v@) is None,
        },
{
    let (a, b) = trim_ws(v);
    if a > b {
        return None;
    }
    let t = bytes_range(v, a, b);
    let n = t.len();
    if n < 2 || t[0] != 34 {
        return None;
    }
    match key_end(t.as_slice(), 1) {
        Some(e) if e == n - 1 => Some(bytes_range(t.as_slice(), 1, n - 1)),
        _ => None,
    }
}

/// A quoted dotted-decimal IPv4 address.
pub open spec fn spec_parse_ip_text(v: Seq<u8>) -> Option<Ipv4> {
    match spec_parse_quoted(v) {
        None => None,
        Some(inner) => spec_parse_ipv4(inner),
    }
}

pub fn parse_ip_text(v: &[u8]) -> (r: Option<Ipv4>)
    ensures
        r == spec_parse_ip_text(v@),
{
    match parse_quoted(v) {
        None => None,
        Some(inner) => parse_ipv4(inner.as_slice()),
    }
}

/// One entry of the peer list: an object with the single key `Ip` holding
/// a quoted address.
pub open spec fn spec_parse_node_ip(v: Seq<u8>) -> Option<Ipv4> {
    match spec_parse_object(v) {
        None => None,
        Some(fs) => if fs.len() == 1 && fs[0].0 == "Ip".spec_bytes() {
            spec_parse_ip_text(fs[0].1)
        } else {
            None
        },
    }
}

pub fn parse_node_ip(v: &[u8]) -> (r: Option<Ipv4>)
    ensures
        r == spec_parse_node_ip(v@),
{
    match parse_object(v) {
        None => None,
        Some(fs) => {
            if fs.len() != 1 {
                return None;
            }
            let f = &fs[0];
            if !bytes_eq(f.key.as_slice(), "Ip".as_bytes()) {
                return None;
            }
            parse_ip_text(f.value.as_slice())
        },
    }
}

/// The peer list: every element an `Ip` object; any malformed element
/// spoils the whole list.
pub open spec fn spec_parse_node_ip_seq(vs: Seq<Seq<u8>>) -> Option<Seq<Ipv4>>
    decreases vs.len(),
{
    if vs.len() == 0 {
        Some(Seq::empty())
    } else {
        match spec_parse_node_ip(vs[0]) {
            None => None,
            Some(ip) => match spec_parse_node_ip_seq(vs.drop_first()) {
                None => None,
                Some(rest) => Some(seq![ip] + rest),
            },
        }
    }
}

fn parse_node_ip_vec(vs: &Vec<Vec<u8>>) -> (r: Option<Vec<Ipv4>>)
    ensures
        match r {
            Some(ips) => spec_parse_node_ip_seq(items_view(vs@)) == Some(ips@),
            None => spec_parse_node_ip_seq(items_view(vs@)) is None,
        },
{
    let n = vs.len();
    let mut out: Vec<Ipv4> = Vec::new();
    let mut i: usize = 0;
    proof {
        assert(items_view(vs@).skip(0) =~= items_view(vs@));
        match spec_parse_node_ip_seq(items_view(vs@)) {
            None => {},
            Some(tail) => {
                assert(Seq::<Ipv4>::empty() + tail =~= tail);
            },
        }
    }
    while i < n
        invariant
            i <= n,
            n == vs@.len(),
            ({
                let whole = spec_parse_node_ip_seq(items_view(vs@));
                let rest = spec_parse_node_ip_seq(items_view(vs@).skip(i as int));
                match rest {
                    None => whole is None,
                    Some(tail) => whole == Some(out@ + tail),
                }
            }),
        decreases n - i,
    {
        proof {
            lemma_node_ip_seq_skip(items_view(vs@), i as int);
        }
        match parse_node_ip(vs[i].as_slice()) {
            None => {
                return None;
            },
            Some(ip) => {
                let ghost old_out = out@;
                out.push(ip);
                proof {
                    let view = items_view(vs@);
                    match spec_parse_node_ip_seq(view.skip(i + 1)) {
                        None => {},
                        Some(tail) => {
                            assert(old_out + (seq![ip] + tail) =~= out@ + tail);
                        },
                    }
                }
            },
        }
        i += 1;
    }
    proof {
        assert(items_view(vs@).skip(n as int) =~= Seq::<Seq<u8>>::empty());
        assert(out@ + Seq::<Ipv4>::empty() =~= out@);
    }
    Some(out)
}

/// Unfolding step: the list parse at position `i` is one element followed
/// by the parse of the rest.
proof fn lemma_node_ip_seq_skip(view: Seq<Seq<u8>>, i: int)
    requires
        0 <= i < view.len(),
    ensures
        spec_parse_node_ip_seq(view.skip(i)) == (match spec_parse_node_ip(view[i]) {
            None => None,
            Some(ip) => match spec_parse_node_ip_seq(view.skip(i + 1)) {
                None => None::<Seq<Ipv4>>,
                Some(rest) => Some(seq![ip] + rest),
            },
        }),
{
    assert(view.skip(i).len() > 0);
    assert(view.skip(i)[0] == view[i]);
    assert(view.skip(i).drop_first() =~= view.skip(i + 1));
}

/// The chain name inside a quoted value, ignoring ASCII case.
pub open spec fn spec_chain_of_bytes(v: Seq<u8>) -> Option<HyperliquidChain> {
    match spec_parse_quoted(v) {
        None => None,
        Some(inner) => {
            if lower_bytes(inner) == "mainnet".spec_bytes() {
                Some(HyperliquidChain::Mainnet)
            } else if lower_bytes(inner) == "testnet".spec_bytes() {
                Some(HyperliquidChain::Testnet)
            } else {
                None
            }
        },
    }
}

pub fn parse_chain_text(v: &[u8]) -> (r: Option<HyperliquidChain>)
    ensures
        r == spec_chain_of_bytes(v@),
{
    match parse_quoted(v) {
        None => None,
        Some(inner) => {
            if bytes_eq_lowered(inner.as_slice(), "mainnet".as_bytes()) {
                Some(HyperliquidChain::Mainnet)
            } else if bytes_eq_lowered(inner.as_slice(), "testnet".as_bytes()) {
                Some(HyperliquidChain::Testnet)
            } else {
                None
            }
        },
    }
}

/// First field with this key, if any.
pub open spec fn spec_find_field(fs: Seq<(Seq<u8>, Seq<u8>)>, key: Seq<u8>) -> Option<Seq<u8>>
    decreases fs.len(),
{
    if fs.len() == 0 {
        None
    } else if fs[0].0 == key {
        Some(fs[0].1)
    } else {
        spec_find_field(fs.drop_first(), key)
    }
}

fn find_field<'a>(fs: &'a Vec<RawField>, key: &[u8]) -> (r: Option<&'a Vec<u8>>)
    ensures
        match r {
            Some(v) => spec_find_field(fields_view(fs@), key@) == Some(v@),
            None => spec_find_field(fields_view(fs@), key@) is None,
        },
{
    let n = fs.len();
    let mut i: usize = 0;
    proof {
        assert(fields_view(fs@).skip(0) =~= fields_view(fs@));
    }
    while i < n
        invariant
            i <= n,
            n == fs@.len(),
            spec_find_field(fields_view(fs@), key@) == spec_find_field(
                fields_view(fs@).skip(i as int),
                key@,
            ),
        decreases n - i,
    {
        proof {
            let view = fields_view(fs@);
            assert(view.skip(i as int).len() > 0);
            assert(view.skip(i as int)[0] == view[i as int]);
            assert(view.skip(i as int).drop_first() =~= view.skip(i + 1));
        }
        if bytes_eq(fs[i].key.as_slice(), key) {
            return Some(&fs[i].value);
        }
        i += 1;
    }
    proof {
        assert(fields_view(fs@).skip(n as int) =~= Seq::<(Seq<u8>, Seq<u8>)>::empty());
    }
    None
}

/// Whether a key is one the configuration models.
pub open spec fn is_known_key(k: Seq<u8>) -> bool {
    ||| k == "root_node_ips".spec_bytes()
    ||| k == "try_new_peers".spec_bytes()
    ||| k == "chain".spec_bytes()
    ||| k == "n_gossip_peers".spec_bytes()
}

fn is_known_key_exec(k: &[u8]) -> (r: bool)
    ensures
        r == is_known_key(k@),
{
    bytes_eq(k, "root_node_ips".as_bytes()) || bytes_eq(k, "try_new_peers".as_bytes())
        || bytes_eq(k, "chain".as_bytes()) || bytes_eq(k, "n_gossip_peers".as_bytes())
}

/// What a parsed field list denotes as a gossip configuration: the peer
/// list (absent means empty), the try-new-peers flag (absent means
/// false), the chain (required; its absence or any malformed modeled
/// field spoils the document), the optional peer-count override (absent
/// or null means unset), and every unmodeled field verbatim.
pub open spec fn spec_gossip_of_fields(fs: Seq<(Seq<u8>, Seq<u8>)>) -> Option<GossipView> {
    let root = match spec_find_field(fs, "root_node_ips".spec_bytes()) {
        None => Some(Seq::<Ipv4>::empty()),
        Some(raw) => match spec_parse_array(raw) {
            None => None,
            Some(items) => spec_parse_node_ip_seq(items),
        },
    };
    let try_new = match spec_find_field(fs, "try_new_peers".spec_bytes()) {
        None => Some(false),
        Some(raw) => spec_parse_bool_text(raw),
    };
    let chain = match spec_find_field(fs, "chain".spec_bytes()) {
        None => None,
        Some(raw) => spec_chain_of_bytes(raw),
    };
    let peers = match spec_find_field(fs, "n_gossip_peers".spec_bytes()) {
        None => Some(None::<u16>),
        Some(raw) => if spec_trim_ws(raw) == "null".spec_bytes() {
            Some(None::<u16>)
        } else {
            match spec_parse_u16_text(raw) {
                None => None,
                Some(v) => Some(Some(v)),
            }
        },
    };
    match (root, try_new, chain, peers) {
        (Some(root), Some(try_new), Some(chain), Some(peers)) => Some(
            GossipView {
                root_peers: root,
                try_new_peers: try_new,
                chain,
                n_gossip_peers: peers,
                unknown: fs.filter(|f: (Seq<u8>, Seq<u8>)| !is_known_key(f.0)),
            },
        ),
        _ => None,
    }
}

/// What a whole document denotes as a gossip configuration.
pub open spec fn spec_parse_gossip(s: Seq<u8>) -> Option<GossipView> {
    match spec_parse_object(s) {
        None => None,
        Some(fs) => spec_gossip_of_fields(fs),
    }
}

/// Parse a gossip configuration document. Success exactly when the
/// document is one object whose modeled fields are well formed and whose
/// chain is given; any other document is a source error.
pub fn parse_gossip_config(s: &[u8]) -> (r: Result<OverrideGossipConfig, Report>)
    ensures
        match r {
            Ok(c) => spec_parse_gossip(s@) == Some(c.view_of()),
            Err(e) => spec_parse_gossip(s@) is None && e.kind == ErrorKind::Source,
        },
{
    let fs = match parse_object(s) {
        None => {
            return Err(
                Report::new(ErrorKind::Source, "malformed configuration document".to_owned()),
            );
        },
        Some(fs) => fs,
    };
    let root: Vec<Ipv4> = match find_field(&fs, "root_node_ips".as_bytes()) {
        None => Vec::new(),
        Some(raw) => {
            let items = match parse_array(raw.as_slice()) {
                None => {
                    return Err(
                        Report::new(ErrorKind::Source, "malformed peer list".to_owned()),
                    );
                },
                Some(items) => items,
            };
            match parse_node_ip_vec(&items) {
                None => {
                    return Err(
                        Report::new(ErrorKind::Source, "malformed peer entry".to_owned()),
                    );
                },
                Some(ips) => ips,
            }
        },
    };
    let try_new = match find_field(&fs, "try_new_peers".as_bytes()) {
        None => false,
        Some(raw) => match parse_bool_text(raw.as_slice()) {
            None => {
                return Err(
                    Report::new(ErrorKind::Source, "malformed try_new_peers flag".to_owned()),
                );
            },
            Some(b) => b,
        },
    };
    let chain = match find_field(&fs, "chain".as_bytes()) {
        None => {
            return Err(Report::new(ErrorKind::Source, "configuration names no chain".to_owned()));
        },
        Some(raw) => match parse_chain_text(raw.as_slice()) {
            None => {
                return Err(Report::new(ErrorKind::Source, "unsupported chain name".to_owned()));
            },
            Some(c) => c,
        },
    };
    let peers: Option<u16> = match find_field(&fs, "n_gossip_peers".as_bytes()) {
        None => None,
        Some(raw) => {
            let (a, b) = trim_ws(raw.as_slice());
            let t = if a <= b {
                bytes_range(raw.as_slice(), a, b)
            } else {
                Vec::new()
            };
            let is_null = bytes_eq(t.as_slice(), "null".as_bytes());
            if is_null {
                None
            } else {
                match parse_u16_text(raw.as_slice()) {
                    None => {
                        return Err(
                            Report::new(
                                ErrorKind::Source,
                                "malformed gossip peer count".to_owned(),
                            ),
                        );
                    },
                    Some(v) => Some(v),
                }
            }
        },
    };
    let mut node_ips: Vec<NodeIp> = Vec::new();
    let mut i: usize = 0;
    let rn = root.len();
    while i < rn
        invariant
            i <= rn,
            rn == root@.len(),
            node_ips@.map_values(|n: NodeIp| n.ip) =~= root@.subrange(0, i as int),
        decreases rn - i,
    {
        proof {
            assert(node_ips@.push(NodeIp { ip: root@[i as int] }).map_values(|n: NodeIp| n.ip)
                =~= node_ips@.map_values(|n: NodeIp| n.ip).push(root@[i as int]));
            assert(root@.subrange(0, i + 1) =~= root@.subrange(0, i as int).push(
                root@[i as int],
            ));
        }
        node_ips.push(NodeIp { ip: root[i] });
        i += 1;
    }
    let mut unknown: Vec<RawField> = Vec::new();
    let ghost all_fields = fields_view(fs@);
    let mut rest = fs;
    let ghost mut k: int = 0;
    proof {
        assert(all_fields.subrange(0, 0).filter(|f: (Seq<u8>, Seq<u8>)| !is_known_key(f.0))
            =~= Seq::<(Seq<u8>, Seq<u8>)>::empty());
        assert(fields_view(unknown@) =~= Seq::<(Seq<u8>, Seq<u8>)>::empty());
        reveal(Seq::filter);
    }
    while rest.len() > 0
        invariant
            0 <= k <= all_fields.len(),
            fields_view(rest@) =~= all_fields.subrange(k, all_fields.len() as int),
            rest@.len() == all_fields.len() - k,
            fields_view(unknown@) == all_fields.subrange(0, k).filter(
                |f: (Seq<u8>, Seq<u8>)| !is_known_key(f.0),
            ),
        decreases rest@.len(),
    {
        let ghost prev = rest@;
        let f = rest.remove(0);
        proof {
            assert(f == prev[0]);
            assert(fields_view(prev)[0] == (f.key@, f.value@));
            assert((f.key@, f.value@) == all_fields[k]);
            assert(rest@ =~= prev.subrange(1, prev.len() as int));
            assert forall|j: int| 0 <= j < rest@.len() implies fields_view(rest@)[j]
                == all_fields.subrange(k + 1, all_fields.len() as int)[j] by {
                assert(rest@[j] == prev[j + 1]);
                assert(fields_view(rest@)[j] == (rest@[j].key@, rest@[j].value@));
                assert(fields_view(prev)[j + 1] == (prev[j + 1].key@, prev[j + 1].value@));
                assert(fields_view(prev)[j + 1] == all_fields.subrange(
                    k,
                    all_fields.len() as int,
                )[j + 1]);
            }
            assert(fields_view(rest@) =~= all_fields.subrange(k + 1, all_fields.len() as int));
            let pre = all_fields.subrange(0, k);
            let nxt = all_fields.subrange(0, k + 1);
            assert(nxt.drop_last() =~= pre);
            assert(nxt.last() == all_fields[k]);
            reveal(Seq::filter);
            let pred = |g: (Seq<u8>, Seq<u8>)| !is_known_key(g.0);
            assert(nxt.filter(pred) == if pred(all_fields[k]) {
                pre.filter(pred).push(all_fields[k])
            } else {
                pre.filter(pred)
            });
        }
        let ghost old_unknown = unknown@;
        if !is_known_key_exec(f.key.as_slice()) {
            let ghost fk = f.key@;
            let ghost fv = f.value@;
            unknown.push(f);
            proof {
                assert(fields_view(unknown@) =~= fields_view(old_unknown).push((fk, fv)));
            }
        }
        proof {
            k = k + 1;
        }
    }
    proof {
        assert(all_fields.subrange(0, all_fields.len() as int) =~= all_fields);
    }
    let config = OverrideGossipConfig {
        root_node_ips: node_ips,
        try_new_peers: try_new,
        chain,
        n_gossip_peers: peers,
        unknown,
    };
    proof {
        assert(config.view_of().root_peers =~= root@);
    }
    Ok(config)
}

/// Append all of `s` to `out`.
fn push_slice(out: &mut Vec<u8>, s: &[u8])
    ensures
        final(out)@ == old(out)@ + s@,
{
    let n = s.len();
    let mut i: usize = 0;
    proof {
        assert(out@ + s@.subrange(0, 0) =~= out@);
    }
    while i < n
        invariant
            i <= n,
            n == s@.len(),
            out@ == old(out)@ + s@.subrange(0, i as int),
        decreases n - i,
    {
        proof {
            assert(old(out)@ + s@.subrange(0, i + 1) =~= (old(out)@ + s@.subrange(
                0,
                i as int,
            )).push(s@[i as int]));
        }
        out.push(s[i]);
        i += 1;
    }
    proof {
        assert(s@.subrange(0, n as int) =~= s@);
    }
}

/// Append the bytes of a literal to `out`.
fn push_text(out: &mut Vec<u8>, s: &str)
    ensures
        final(out)@ == old(out)@ + s.spec_bytes(),
{
    push_slice(out, s.as_bytes());
}

pub open spec fn spec_bool_text(b: bool) -> Seq<u8> {
    if b {
        "true".spec_bytes()
    } else {
        "false".spec_bytes()
    }
}

/// The fixed-case chain name, as bytes.
pub open spec fn spec_chain_name_bytes(c: HyperliquidChain) -> Seq<u8> {
    match c {
        HyperliquidChain::Mainnet => "Mainnet".spec_bytes(),
        HyperliquidChain::Testnet => "Testnet".spec_bytes(),
    }
}

/// One peer-list entry as written: an object with the single key `Ip`.
pub open spec fn spec_node_ip_object(ip: Ipv4) -> Seq<u8> {
    "{\"Ip\":\"".spec_bytes() + spec_ipv4_text(ip) + "\"}".spec_bytes()
}

/// The peer-list entries, comma separated.
pub open spec fn spec_ip_list(ips: Seq<Ipv4>) -> Seq<u8>
    decreases ips.len(),
{
    if ips.len() == 0 {
        Seq::empty()
    } else if ips.len() == 1 {
        spec_node_ip_object(ips[0])
    } else {
        spec_ip_list(ips.drop_last()) + seq![44u8] + spec_node_ip_object(ips.last())
    }
}

/// The unmodeled fields as written: each re-quoted key with its raw value
/// verbatim, each preceded by a comma.
pub open spec fn spec_unknown_text(fs: Seq<(Seq<u8>, Seq<u8>)>) -> Seq<u8>
    decreases fs.len(),
{
    if fs.len() == 0 {
        Seq::empty()
    } else {
        spec_unknown_text(fs.drop_last()) + seq![44u8, 34u8] + fs.last().0 + seq![34u8, 58u8]
            + fs.last().1
    }
}

/// The peer-count field as written, or nothing when unset.
pub open spec fn spec_peer_count_text(p: Option<u16>) -> Seq<u8> {
    match p {
        None => Seq::empty(),
        Some(v) => ",\"n_gossip_peers\":".spec_bytes() + spec_decimal(v as nat),
    }
}

/// The gossip configuration document, byte for byte: the modeled fields
/// in fixed order, then every unmodeled field verbatim.
pub open spec fn spec_serialize_gossip(v: GossipView) -> Seq<u8> {
    "{\"root_node_ips\":[".spec_bytes() + spec_ip_list(v.root_peers)
        + "],\"try_new_peers\":".spec_bytes() + spec_bool_text(v.try_new_peers)
        + ",\"chain\":\"".spec_bytes() + spec_chain_name_bytes(v.chain) + "\"".spec_bytes()
        + spec_peer_count_text(v.n_gossip_peers) + spec_unknown_text(v.unknown) + seq![125u8]
}

/// Serialize a gossip configuration. Unmodeled fields appear in the
/// output byte for byte as they were read.
pub fn serialize_gossip_config(c: &OverrideGossipConfig) -> (r: Vec<u8>)
    ensures
        r@ == spec_serialize_gossip(c.view_of()),
{
    let ghost ips = c.view_of().root_peers;
    let mut out: Vec<u8> = Vec::new();
    push_text(&mut out, "{\"root_node_ips\":[");
    let ghost list_start = out@;
    let n = c.root_node_ips.len();
    let mut i: usize = 0;
    proof {
        assert(ips.subrange(0, 0) =~= Seq::<Ipv4>::empty());
        assert(out@ + spec_ip_list(ips.subrange(0, 0)) =~= out@);
    }
    while i < n
        invariant
            i <= n,
            n == c.root_node_ips@.len(),
            ips == c.view_of().root_peers,
            out@ == list_start + spec_ip_list(ips.subrange(0, i as int)),
        decreases n - i,
    {
        proof {
            let pre = ips.subrange(0, i as int);
            let nxt = ips.subrange(0, i + 1);
            assert(nxt.drop_last() =~= pre);
            assert(nxt.last() == ips[i as int]);
        }
        if i > 0 {
            out.push(44);
        }
        push_text(&mut out, "{\"Ip\":\"");
        let ip = c.root_node_ips[i].ip;
        proof {
            assert(ip == ips[i as int]);
        }
        ip.push_text(&mut out);
        push_text(&mut out, "\"}");
        proof {
            assert(out@ =~= list_start + spec_ip_list(ips.subrange(0, i + 1)));
        }
        i += 1;
    }
    proof {
        assert(ips.subrange(0, n as int) =~= ips);
    }
    push_text(&mut out, "],\"try_new_peers\":");
    if c.try_new_peers {
        push_text(&mut out, "true");
    } else {
        push_text(&mut out, "false");
    }
    push_text(&mut out, ",\"chain\":\"");
    match c.chain {
        HyperliquidChain::Mainnet => push_text(&mut out, "Mainnet"),
        HyperliquidChain::Testnet => push_text(&mut out, "Testnet"),
    }
    push_text(&mut out, "\"");
    match c.n_gossip_peers {
        None => {},
        Some(v) => {
            push_text(&mut out, ",\"n_gossip_peers\":");
            push_decimal(&mut out, v);
        },
    }
    let ghost unknown_start = out@;
    let ghost ufs = fields_view(c.unknown@);
    let un = c.unknown.len();
    let mut j: usize = 0;
    proof {
        assert(ufs.subrange(0, 0) =~= Seq::<(Seq<u8>, Seq<u8>)>::empty());
        assert(out@ + spec_unknown_text(ufs.subrange(0, 0)) =~= out@);
    }
    while j < un
        invariant
            j <= un,
            un == c.unknown@.len(),
            ufs == fields_view(c.unknown@),
            out@ == unknown_start + spec_unknown_text(ufs.subrange(0, j as int)),
        decreases un - j,
    {
        proof {
            let pre = ufs.subrange(0, j as int);
            let nxt = ufs.subrange(0, j + 1);
            assert(nxt.drop_last() =~= pre);
            assert(nxt.last() == ufs[j as int]);
            assert(ufs[j as int] == (c.unknown@[j as int].key@, c.unknown@[j as int].value@));
        }
        out.push(44);
        out.push(34);
        push_slice(&mut out, c.unknown[j].key.as_slice());
        out.push(34);
        out.push(58);
        push_slice(&mut out, c.unknown[j].value.as_slice());
        proof {
            assert(out@ =~= unknown_start + spec_unknown_text(ufs.subrange(0, j + 1)));
        }
        j += 1;
    }
    proof {
        assert(ufs.subrange(0, un as int) =~= ufs);
    }
    out.push(125);
    proof {
        assert(out@ =~= spec_serialize_gossip(c.view_of()));
    }
    out
}

/// How one unmodeled field stands in the serialized document: a comma,
/// the re-quoted key, a colon, and the raw value verbatim.
pub open spec fn unknown_entry(f: (Seq<u8>, Seq<u8>)) -> Seq<u8> {
    seq![44u8, 34u8] + f.0 + seq![34u8, 58u8] + f.1
}

proof fn lemma_unknown_text_embeds(fs: Seq<(Seq<u8>, Seq<u8>)>, i: int)
    requires
        0 <= i < fs.len(),
    ensures
        exists|o: int|
            #![trigger spec_unknown_text(fs).subrange(o, o + unknown_entry(fs[i]).len() as int)]
            {
                &&& 0 <= o
                &&& o + unknown_entry(fs[i]).len() <= spec_unknown_text(fs).len()
                &&& spec_unknown_text(fs).subrange(o, o + unknown_entry(fs[i]).len() as int)
                    == unknown_entry(fs[i])
            },
    decreases fs.len(),
{
    let text = spec_unknown_text(fs);
    let prev = spec_unknown_text(fs.drop_last());
    let e = unknown_entry(fs.last());
    assert(text =~= prev + e);
    if i == fs.len() - 1 {
        let o = prev.len() as int;
        assert(text.subrange(o, o + e.len() as int) =~= e);
        assert(0 <= o && o + unknown_entry(fs[i]).len() <= text.len() && text.subrange(
            o,
            o + unknown_entry(fs[i]).len() as int,
        ) == unknown_entry(fs[i]));
    } else {
        lemma_unknown_text_embeds(fs.drop_last(), i);
        let o = choose|o: int|
            #![trigger prev.subrange(o, o + unknown_entry(fs.drop_last()[i]).len() as int)]
            {
                &&& 0 <= o
                &&& o + unknown_entry(fs.drop_last()[i]).len() <= prev.len()
                &&& prev.subrange(o, o + unknown_entry(fs.drop_last()[i]).len() as int)
                    == unknown_entry(fs.drop_last()[i])
            };
        assert(fs.drop_last()[i] == fs[i]);
        let w = unknown_entry(fs[i]).len() as int;
        assert(text.subrange(o, o + w) =~= prev.subrange(o, o + w));
        assert(0 <= o && o + unknown_entry(fs[i]).len() <= text.len() && text.subrange(
            o,
            o + unknown_entry(fs[i]).len() as int,
        ) == unknown_entry(fs[i]));
    }
}

/// Law (unmodeled fields round-trip): every field of a gossip
/// configuration that this system does not model stands in the serialized
/// document byte for byte — the same key and the same raw value bytes.
/// Together with the parser's contract, which recovers such fields
/// verbatim from the input, a read-modify-write cycle carries them
/// through unchanged.
pub proof fn lemma_unknown_field_in_output(v: GossipView, i: int)
    requires
        0 <= i < v.unknown.len(),
    ensures
        exists|o: int|
            #![trigger spec_serialize_gossip(v).subrange(o, o + unknown_entry(v.unknown[i]).len() as int)]
            {
                &&& 0 <= o
                &&& o + unknown_entry(v.unknown[i]).len() <= spec_serialize_gossip(v).len()
                &&& spec_serialize_gossip(v).subrange(
                    o,
                    o + unknown_entry(v.unknown[i]).len() as int,
                ) == unknown_entry(v.unknown[i])
            },
{
    lemma_unknown_text_embeds(v.unknown, i);
    let pre = "{\"root_node_ips\":[".spec_bytes() + spec_ip_list(v.root_peers)
        + "],\"try_new_peers\":".spec_bytes() + spec_bool_text(v.try_new_peers)
        + ",\"chain\":\"".spec_bytes() + spec_chain_name_bytes(v.chain) + "\"".spec_bytes()
        + spec_peer_count_text(v.n_gossip_peers);
    let text = spec_unknown_text(v.unknown);
    let out = spec_serialize_gossip(v);
    assert(out =~= pre + text + seq![125u8]);
    let o = choose|o: int|
        #![trigger text.subrange(o, o + unknown_entry(v.unknown[i]).len() as int)]
        {
            &&& 0 <= o
            &&& o + unknown_entry(v.unknown[i]).len() <= text.len()
            &&& text.subrange(o, o + unknown_entry(v.unknown[i]).len() as int) == unknown_entry(
                v.unknown[i],
            )
        };
    let w = unknown_entry(v.unknown[i]).len() as int;
    let oo = pre.len() + o;
    assert(out.subrange(oo, oo + w) =~= text.subrange(o, o + w));
    assert(0 <= oo && oo + unknown_entry(v.unknown[i]).len() <= out.len() && out.subrange(
        oo,
        oo + unknown_entry(v.unknown[i]).len() as int,
    ) == unknown_entry(v.unknown[i]));
}

/// For ASCII text, the encoded bytes are the characters, one byte each.
proof fn lemma_ascii_bytes(s: &str)
    requires
        vstd::utf8::is_ascii_chars(s@),
    ensures
        s.spec_bytes().len() == s@.len(),
        forall|i: int| 0 <= i < s@.len() ==> s.spec_bytes()[i] == (#[trigger] s@[i]) as u8,
{
    vstd::utf8::is_ascii_chars_encode_utf8(s@);
}

/// Where an object key with no quote or backslash before `j` ends.
proof fn lemma_key_end_exact(s: Seq<u8>, i: int, j: int)
    requires
        0 <= i <= j < s.len(),
        forall|k: int| i <= k < j ==> #[trigger] s[k] != 34 && s[k] != 92,
        s[j] == 34,
    ensures
        spec_key_end(s, i) == Some(j),
    decreases j - i,
{
    if i < j {
        lemma_key_end_exact(s, i + 1, j);
    }
}

/// Law (chain field round-trips): the quoted chain name the serializer
/// writes denotes the same chain when read back.
pub proof fn lemma_chain_value_round_trip(c: HyperliquidChain)
    ensures
        spec_chain_of_bytes(seq![34u8] + spec_chain_name_bytes(c) + seq![34u8]) == Some(c),
{
    reveal_strlit("Mainnet");
    reveal_strlit("mainnet");
    reveal_strlit("Testnet");
    reveal_strlit("testnet");
    lemma_ascii_bytes("Mainnet");
    lemma_ascii_bytes("mainnet");
    lemma_ascii_bytes("Testnet");
    lemma_ascii_bytes("testnet");
    let name = spec_chain_name_bytes(c);
    let v = seq![34u8] + name + seq![34u8];
    match c {
        HyperliquidChain::Mainnet => {
            assert forall|k: int| 0 <= k < 7 implies name[k] == ("Mainnet"@[k]) as u8 by {
                assert("Mainnet".spec_bytes()[k] == ("Mainnet"@[k]) as u8);
            }
        },
        HyperliquidChain::Testnet => {
            assert forall|k: int| 0 <= k < 7 implies name[k] == ("Testnet"@[k]) as u8 by {
                assert("Testnet".spec_bytes()[k] == ("Testnet"@[k]) as u8);
            }
        },
    }
    assert(v.len() == 9);
    assert(v[0] == 34);
    assert(v[8] == 34);
    assert(spec_ws_run_end(v, 0) == 0);
    assert(spec_rev_ws_start(v, 9) == 9);
    assert(spec_trim_ws(v) =~= v);
    assert forall|k: int| 1 <= k < 8 implies v[k] != 34 && v[k] != 92 by {
        assert(v[k] == name[k - 1]);
    }
    lemma_key_end_exact(v, 1, 8);
    let inner = v.subrange(1, 8);
    assert(inner =~= name);
    match c {
        HyperliquidChain::Mainnet => {
            assert forall|k: int| 0 <= k < 7 implies lower_bytes(name)[k]
                == "mainnet".spec_bytes()[k] by {
                assert(lower_bytes(name)[k] == lower_byte(name[k]));
                assert("mainnet".spec_bytes()[k] == ("mainnet"@[k]) as u8);
            }
            assert(lower_bytes(name) =~= "mainnet".spec_bytes());
        },
        HyperliquidChain::Testnet => {
            assert forall|k: int| 0 <= k < 7 implies lower_bytes(name)[k]
                == "testnet".spec_bytes()[k] by {
                assert(lower_bytes(name)[k] == lower_byte(name[k]));
                assert("testnet".spec_bytes()[k] == ("testnet"@[k]) as u8);
            }
            assert(lower_bytes(name) =~= "testnet".spec_bytes());
            assert(lower_bytes(name)[0] == 116);
            assert("mainnet".spec_bytes()[0] == ("mainnet"@[0]) as u8);
            assert(lower_bytes(name) != "mainnet".spec_bytes());
        },
    }
}

/// Law (flag field round-trips): the boolean text the serializer writes
/// denotes the same value when read back.
pub proof fn lemma_bool_value_round_trip(b: bool)
    ensures
        spec_parse_bool_text(spec_bool_text(b)) == Some(b),
{
    reveal_strlit("true");
    reveal_strlit("false");
    lemma_ascii_bytes("true");
    lemma_ascii_bytes("false");
    let v = spec_bool_text(b);
    if b {
        assert(v[0] == ("true"@[0]) as u8);
        assert(v[3] == ("true"@[3]) as u8);
    } else {
        assert(v[0] == ("false"@[0]) as u8);
        assert(v[4] == ("false"@[4]) as u8);
    }
    assert(spec_ws_run_end(v, 0) == 0);
    assert(spec_rev_ws_start(v, v.len() as int) == v.len());
    assert(spec_trim_ws(v) =~= v);
    assert("true".spec_bytes().len() == 4);
    assert("false".spec_bytes().len() == 5);
}

/// Law (peer-count field round-trips): the decimal text the serializer
/// writes denotes the same count when read back.
pub proof fn lemma_peer_count_value_round_trip(v: u16)
    ensures
        spec_parse_u16_text(spec_decimal(v as nat)) == Some(v),
{
    crate::ip::lemma_decimal_props(v as nat);
    let t = spec_decimal(v as nat);
    assert(forall|i: int| 0 <= i < t.len() ==> !crate::scan::is_ws(#[trigger] t[i]));
    assert(spec_ws_run_end(t, 0) == 0);
    assert(spec_rev_ws_start(t, t.len() as int) == t.len());
    assert(spec_trim_ws(t) =~= t);
    crate::ip::lemma_digit_run_exact(t, 0, t.len() as int);
}

/// The visor configuration artifact: the chain the node runs on.
#[derive(Clone, Copy, Debug, PartialEq, Eq, Structural)]
pub struct VisorConfig {
    pub chain: HyperliquidChain,
}

/// The visor configuration document, byte for byte.
pub open spec fn spec_serialize_visor(c: VisorConfig) -> Seq<u8> {
    "{\"chain\":\"".spec_bytes() + spec_chain_name_bytes(c.chain) + "\"}".spec_bytes()
}

pub fn serialize_visor_config(c: &VisorConfig) -> (r: Vec<u8>)
    ensures
        r@ == spec_serialize_visor(*c),
{
    let mut out: Vec<u8> = Vec::new();
    push_text(&mut out, "{\"chain\":\"");
    match c.chain {
        HyperliquidChain::Mainnet => push_text(&mut out, "Mainnet"),
        HyperliquidChain::Testnet => push_text(&mut out, "Testnet"),
    }
    push_text(&mut out, "\"}");
    proof {
        assert(out@ =~= spec_serialize_visor(*c));
    }
    out
}

/// The chain a visor configuration document names; fields other than
/// `chain` are ignored.
pub open spec fn spec_parse_visor(s: Seq<u8>) -> Option<HyperliquidChain> {
    match spec_parse_object(s) {
        None => None,
        Some(fs) => match spec_find_field(fs, "chain".spec_bytes()) {
            None => None,
            Some(raw) => spec_chain_of_bytes(raw),
        },
    }
}

/// Read the visor configuration. Success exactly when the document is one
/// object naming a supported chain; anything else is a configuration
/// error.
pub fn parse_visor_config(s: &[u8]) -> (r: Result<VisorConfig, Report>)
    ensures
        match r {
            Ok(c) => spec_parse_visor(s@) == Some(c.chain),
            Err(e) => spec_parse_visor(s@) is None && e.kind == ErrorKind::Configuration,
        },
{
    let fs = match parse_object(s) {
        None => {
            return Err(
                Report::new(
                    ErrorKind::Configuration,
                    "malformed visor configuration".to_owned(),
                ),
            );
        },
        Some(fs) => fs,
    };
    match find_field(&fs, "chain".as_bytes()) {
        None => Err(
            Report::new(
                ErrorKind::Configuration,
                "visor configuration names no chain".to_owned(),
            ),
        ),
        Some(raw) => match parse_chain_text(raw.as_slice()) {
            None => Err(
                Report::new(
                    ErrorKind::Configuration,
                    "visor configuration names an unsupported chain".to_owned(),
                ),
            ),
            Some(c) => Ok(VisorConfig { chain: c }),
        },
    }
}

/// The elements of a peer-address response: every element one quoted
/// address; any malformed element spoils the list.
pub open spec fn spec_parse_ip_string_seq(vs: Seq<Seq<u8>>) -> Option<Seq<Ipv4>>
    decreases vs.len(),
{
    if vs.len() == 0 {
        Some(Seq::empty())
    } else {
        match spec_parse_ip_text(vs[0]) {
            None => None,
            Some(ip) => match spec_parse_ip_string_seq(vs.drop_first()) {
                None => None,
                Some(rest) => Some(seq![ip] + rest),
            },
        }
    }
}

proof fn lemma_ip_string_seq_skip(view: Seq<Seq<u8>>, i: int)
    requires
        0 <= i < view.len(),
    ensures
        spec_parse_ip_string_seq(view.skip(i)) == (match spec_parse_ip_text(view[i]) {
            None => None,
            Some(ip) => match spec_parse_ip_string_seq(view.skip(i + 1)) {
                None => None::<Seq<Ipv4>>,
                Some(rest) => Some(seq![ip] + rest),
            },
        }),
{
    assert(view.skip(i).len() > 0);
    assert(view.skip(i)[0] == view[i]);
    assert(view.skip(i).drop_first() =~= view.skip(i + 1));
}

/// What a whole document denotes as a flat list of addresses.
pub open spec fn spec_parse_ip_array(s: Seq<u8>) -> Option<Seq<Ipv4>> {
    match spec_parse_array(s) {
        None => None,
        Some(items) => spec_parse_ip_string_seq(items),
    }
}

/// Parse a flat JSON list of quoted addresses, as the mainnet source
/// returns one. Success exactly when the document is such a list; any
/// other document is a source error.
pub fn parse_ip_array(s: &[u8]) -> (r: Result<Vec<Ipv4>, Report>)
    ensures
        match r {
            Ok(ips) => spec_parse_ip_array(s@) == Some(ips@),
            Err(e) => spec_parse_ip_array(s@) is None && e.kind == ErrorKind::Source,
        },
{
    let items = match parse_array(s) {
        None => {
            return Err(Report::new(ErrorKind::Source, "malformed address list".to_owned()));
        },
        Some(items) => items,
    };
    proof {
        assert(spec_parse_array(s@) == Some(items_view(items@)));
    }
    let n = items.len();
    let mut out: Vec<Ipv4> = Vec::new();
    let mut i: usize = 0;
    proof {
        assert(items_view(items@).skip(0) =~= items_view(items@));
        match spec_parse_ip_string_seq(items_view(items@)) {
            None => {},
            Some(tail) => {
                assert(Seq::<Ipv4>::empty() + tail =~= tail);
            },
        }
    }
    while i < n
        invariant
            i <= n,
            n == items@.len(),
            spec_parse_array(s@) == Some(items_view(items@)),
            ({
                let whole = spec_parse_ip_string_seq(items_view(items@));
                let rest = spec_parse_ip_string_seq(items_view(items@).skip(i as int));
                match rest {
                    None => whole is None,
                    Some(tail) => whole == Some(out@ + tail),
                }
            }),
        decreases n - i,
    {
        proof {
            lemma_ip_string_seq_skip(items_view(items@), i as int);
            assert(items_view(items@)[i as int] == items@[i as int]@);
        }
        match parse_ip_text(items[i].as_slice()) {
            None => {
                return Err(Report::new(ErrorKind::Source, "malformed address".to_owned()));
            },
            Some(ip) => {
                let ghost old_out = out@;
                out.push(ip);
                proof {
                    match spec_parse_ip_string_seq(items_view(items@).skip(i + 1)) {
                        None => {},
                        Some(tail) => {
                            assert(old_out + (seq![ip] + tail) =~= out@ + tail);
                        },
                    }
                }
            },
        }
        i += 1;
    }
    proof {
        assert(items_view(items@).skip(n as int) =~= Seq::<Seq<u8>>::empty());
        assert(out@ + Seq::<Ipv4>::empty() =~= out@);
    }
    Ok(out)
}

} // verus!
