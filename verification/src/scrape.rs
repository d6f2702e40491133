//! The scraped-document seed source: peers are read from a semi-structured
//! text document holding a fenced code block. The block's first content
//! line must begin with a known header token; each subsequent non-blank
//! line is `label,address`. A line missing either field, or with an
//! unparsable address, spoils the whole fetch.

use vstd::prelude::*;
use crate::gossip::{filter_ignored_peers, not_ignored, HyperliquidSeedPeer};
use crate::ip::{spec_parse_ipv4, parse_ipv4, Ipv4};
use crate::json::{bytes_eq, bytes_range, spec_trim_ws, trim_ws};
use crate::report::{ErrorKind, Report};
use crate::scan::is_ws;

verus! {

/// A peer as the document names it: its label and its address.
#[derive(Debug)]
pub struct ScrapedPeer {
    pub label: Vec<u8>,
    pub ip: Ipv4,
}

pub open spec fn scraped_view(ps: Seq<ScrapedPeer>) -> Seq<(Seq<u8>, Ipv4)> {
    ps.map_values(|p: ScrapedPeer| (p.label@, p.ip))
}

/// Whether a candidate carries exactly this label and address.
pub open spec fn peer_labelled_as(p: HyperliquidSeedPeer, pair: (Seq<u8>, Ipv4)) -> bool {
    p.ip == pair.1 && (p.label matches Some(l) && l@ == pair.0)
}

/// Whether the candidates carry, element by element, exactly these label
/// and address pairs.
pub open spec fn peers_match_pairs(ps: Seq<HyperliquidSeedPeer>, sc: Seq<(Seq<u8>, Ipv4)>) -> bool {
    ps.len() == sc.len() && forall|i: int|
        0 <= i < sc.len() ==> peer_labelled_as(#[trigger] ps[i], sc[i])
}

/// First index at or after `i` holding a line break, or the text's end.
pub open spec fn spec_line_break(s: Seq<u8>, i: int) -> int
    decreases s.len() - i when 0 <= i <= s.len()
{
    if i < s.len() && s[i] != 10 {
        spec_line_break(s, i + 1)
    } else {
        i
    }
}

pub proof fn lemma_line_break(s: Seq<u8>, i: int)
    requires
        0 <= i <= s.len(),
    ensures
        i <= spec_line_break(s, i) <= s.len(),
    decreases s.len() - i,
{
    if i < s.len() && s[i] != 10 {
        lemma_line_break(s, i + 1);
    }
}

pub fn line_break(s: &[u8], i: usize) -> (r: usize)
    requires
        i <= s@.len(),
    ensures
        r == spec_line_break(s@, i as int),
        i <= r <= s@.len(),
{
    let n = s.len();
    let mut j = i;
    while j < n && s[j] != 10
        invariant
            i <= j <= n,
            n == s@.len(),
            spec_line_break(s@, i as int) == spec_line_break(s@, j as int),
        decreases n - j,
    {
        proof {
            assert(spec_line_break(s@, j as int) == spec_line_break(s@, j + 1));
        }
        j += 1;
    }
    j
}

/// Whether a line opens or closes a fenced code block: its trimmed text
/// begins with three backticks.
pub open spec fn is_fence_line(line: Seq<u8>) -> bool {
    let t = spec_trim_ws(line);
    t.len() >= 3 && t[0] == 96 && t[1] == 96 && t[2] == 96
}

fn check_fence_line(line: &[u8]) -> (r: bool)
    ensures
        r == is_fence_line(line@),
{
    let (a, b) = trim_ws(line);
    if a > b {
        return false;
    }
    let t = bytes_range(line, a, b);
    t.len() >= 3 && t[0] == 96 && t[1] == 96 && t[2] == 96
}

/// Whether the trimmed line begins with the header token.
pub open spec fn begins_with_header(line: Seq<u8>, header: Seq<u8>) -> bool {
    let t = spec_trim_ws(line);
    t.len() >= header.len() && t.subrange(0, header.len() as int) == header
}

fn check_header_line(line: &[u8], header: &[u8]) -> (r: bool)
    ensures
        r == begins_with_header(line@, header@),
{
    let (a, b) = trim_ws(line);
    let t = if a <= b {
        bytes_range(line, a, b)
    } else {
        Vec::new()
    };
    let h = header.len();
    if t.len() < h {
        return false;
    }
    let head = bytes_range(t.as_slice(), 0, h);
    bytes_eq(head.as_slice(), header)
}

/// Whether a line holds nothing but whitespace.
pub open spec fn is_blank_line(line: Seq<u8>) -> bool {
    spec_trim_ws(line).len() == 0
}

/// First comma at or after `i`, if any.
pub open spec fn spec_comma_pos(s: Seq<u8>, i: int) -> Option<int>
    decreases s.len() - i when 0 <= i <= s.len()
{
    if i >= s.len() {
        None
    } else if s[i] == 44 {
        Some(i)
    } else {
        spec_comma_pos(s, i + 1)
    }
}

fn comma_pos(s: &[u8], i: usize) -> (r: Option<usize>)
    requires
        i <= s@.len(),
    ensures
        match r {
            Some(c) => spec_comma_pos(s@, i as int) == Some(c as int) && i <= c < s@.len(),
            None => spec_comma_pos(s@, i as int) is None,
        },
{
    let n = s.len();
    let mut j = i;
    while j < n
        invariant
            i <= j <= n,
            n == s@.len(),
            spec_comma_pos(s@, i as int) == spec_comma_pos(s@, j as int),
        decreases n - j,
    {
        if s[j] == 44 {
            return Some(j);
        }
        j += 1;
    }
    None
}

/// What a data line denotes: the trimmed label before the first comma
/// (which must not be empty) and the trimmed address after it.
pub open spec fn spec_parse_peer_line(line: Seq<u8>) -> Option<(Seq<u8>, Ipv4)> {
    match spec_comma_pos(line, 0) {
        None => None,
        Some(c) => if !(0 <= c < line.len()) {
            None
        } else {
            let label = spec_trim_ws(line.subrange(0, c));
            let addr = spec_trim_ws(line.subrange(c + 1, line.len() as int));
            if label.len() == 0 {
                None
            } else {
                match spec_parse_ipv4(addr) {
                    None => None,
                    Some(ip) => Some((label, ip)),
                }
            }
        },
    }
}

fn parse_peer_line(line: &[u8]) -> (r: Option<ScrapedPeer>)
    ensures
        match r {
            Some(p) => spec_parse_peer_line(line@) == Some((p.label@, p.ip)),
            None => spec_parse_peer_line(line@) is None,
        },
{
    let c = match comma_pos(line, 0) {
        None => {
            return None;
        },
        Some(c) => c,
    };
    let before = bytes_range(line, 0, c);
    let (la, lb) = trim_ws(before.as_slice());
    let label = if la <= lb {
        bytes_range(before.as_slice(), la, lb)
    } else {
        Vec::new()
    };
    proof {
        assert(before@ =~= line@.subrange(0, c as int));
    }
    if label.len() == 0 {
        return None;
    }
    let line_len = line.len();
    let after = bytes_range(line, c + 1, line_len);
    let (aa, ab) = trim_ws(after.as_slice());
    let addr = if aa <= ab {
        bytes_range(after.as_slice(), aa, ab)
    } else {
        Vec::new()
    };
    proof {
        assert(after@ =~= line@.subrange(c + 1, line@.len() as int));
    }
    match parse_ipv4(addr.as_slice()) {
        None => None,
        Some(ip) => Some(ScrapedPeer { label, ip }),
    }
}

/// Where the scan of the document stands.
#[derive(Clone, Copy, Debug, PartialEq, Eq, Structural)]
pub enum ScrapeMode {
    /// Still looking for the opening fence.
    BeforeBlock,
    /// Inside the block, expecting the header line.
    ExpectHeader,
    /// Inside the block, reading data lines.
    InBlock,
}

/// What the document's lines from `i` on denote under `mode`: `None`
/// where no block with the header exists, the block never closes, or a
/// data line is malformed; otherwise the labelled peers, in order.
/// Everything after the closing fence is ignored.
pub open spec fn spec_scrape_lines(s: Seq<u8>, i: int, mode: ScrapeMode, header: Seq<u8>) -> Option<
    Seq<(Seq<u8>, Ipv4)>,
>
    decreases s.len() - i when 0 <= i <= s.len()
{
    if i >= s.len() {
        None
    } else {
        let e = spec_line_break(s, i);
        if !(i <= e <= s.len()) {
            None
        } else {
            let line = s.subrange(i, e);
            let next = if e < s.len() {
                e + 1
            } else {
                e
            };
            if !(i < next <= s.len()) {
                None
            } else {
                match mode {
                    ScrapeMode::BeforeBlock => if is_fence_line(line) {
                        spec_scrape_lines(s, next, ScrapeMode::ExpectHeader, header)
                    } else {
                        spec_scrape_lines(s, next, ScrapeMode::BeforeBlock, header)
                    },
                    ScrapeMode::ExpectHeader => if is_fence_line(line) {
                        None
                    } else if begins_with_header(line, header) {
                        spec_scrape_lines(s, next, ScrapeMode::InBlock, header)
                    } else {
                        None
                    },
                    ScrapeMode::InBlock => if is_fence_line(line) {
                        Some(Seq::empty())
                    } else if is_blank_line(line) {
                        spec_scrape_lines(s, next, ScrapeMode::InBlock, header)
                    } else {
                        match spec_parse_peer_line(line) {
                            None => None,
                            Some(p) => match spec_scrape_lines(
                                s,
                                next,
                                ScrapeMode::InBlock,
                                header,
                            ) {
                                None => None,
                                Some(rest) => Some(seq![p] + rest),
                            },
                        }
                    },
                }
            }
        }
    }
}

/// What a whole document denotes as a scraped peer list.
pub open spec fn spec_scrape_doc(s: Seq<u8>, header: Seq<u8>) -> Option<Seq<(Seq<u8>, Ipv4)>> {
    spec_scrape_lines(s, 0, ScrapeMode::BeforeBlock, header)
}

/// Scrape the labelled peers out of a document (see `spec_scrape_doc`).
/// Any malformation is a hard error for the whole fetch.
pub fn parse_seed_peer_document(s: &[u8], header: &[u8]) -> (r: Result<Vec<ScrapedPeer>, Report>)
    ensures
        match r {
            Ok(ps) => spec_scrape_doc(s@, header@) == Some(scraped_view(ps@)),
            Err(e) => spec_scrape_doc(s@, header@) is None && e.kind == ErrorKind::Source,
        },
{
    let n = s.len();
    let mut acc: Vec<ScrapedPeer> = Vec::new();
    let mut cur: usize = 0;
    let mut mode = ScrapeMode::BeforeBlock;
    proof {
        assert(scraped_view(acc@) =~= Seq::<(Seq<u8>, Ipv4)>::empty());
    }
    loop
        invariant
            cur <= n,
            n == s@.len(),
            ({
                let whole = spec_scrape_lines(s@, 0, ScrapeMode::BeforeBlock, header@);
                let rest = spec_scrape_lines(s@, cur as int, mode, header@);
                match rest {
                    None => whole is None,
                    Some(ps) => whole == Some(scraped_view(acc@) + ps),
                }
            }),
        decreases n - cur,
    {
        if cur >= n {
            return Err(
                Report::new(
                    ErrorKind::Source,
                    "no closed peer block with the expected header".to_owned(),
                ),
            );
        }
        let e = line_break(s, cur);
        let line = bytes_range(s, cur, e);
        let next = if e < n {
            e + 1
        } else {
            e
        };
        let fence = check_fence_line(line.as_slice());
        match mode {
            ScrapeMode::BeforeBlock => {
                if fence {
                    mode = ScrapeMode::ExpectHeader;
                }
                cur = next;
            },
            ScrapeMode::ExpectHeader => {
                if fence {
                    return Err(
                        Report::new(ErrorKind::Source, "peer block holds no header".to_owned()),
                    );
                }
                if !check_header_line(line.as_slice(), header) {
                    return Err(
                        Report::new(
                            ErrorKind::Source,
                            "peer block does not begin with the expected header".to_owned(),
                        ),
                    );
                }
                mode = ScrapeMode::InBlock;
                cur = next;
            },
            ScrapeMode::InBlock => {
                if fence {
                    proof {
                        assert(scraped_view(acc@) + Seq::<(Seq<u8>, Ipv4)>::empty()
                            =~= scraped_view(acc@));
                    }
                    return Ok(acc);
                }
                let (ta, tb) = trim_ws(line.as_slice());
                let blank = ta >= tb;
                proof {
                    if ta >= tb {
                        assert(spec_trim_ws(line@).len() == 0);
                    }
                }
                if !blank {
                    match parse_peer_line(line.as_slice()) {
                        None => {
                            return Err(
                                Report::new(
                                    ErrorKind::Source,
                                    "malformed peer line in block".to_owned(),
                                ),
                            );
                        },
                        Some(p) => {
                            let ghost old_acc = acc@;
                            let ghost pv = (p.label@, p.ip);
                            acc.push(p);
                            proof {
                                assert(scraped_view(acc@) =~= scraped_view(old_acc).push(pv));
                                match spec_scrape_lines(
                                    s@,
                                    next as int,
                                    ScrapeMode::InBlock,
                                    header@,
                                ) {
                                    None => {},
                                    Some(rest) => {
                                        assert(scraped_view(old_acc) + (seq![pv] + rest)
                                            =~= scraped_view(acc@) + rest);
                                    },
                                }
                            }
                        },
                    }
                }
                cur = next;
            },
        }
    }
}

/// The scraped source's post-processing: scrape the document, attach each
/// label to its peer, and apply the ignore set.
pub fn scraped_peers_from_document(s: &[u8], header: &[u8], ignored: &Vec<Ipv4>) -> (r: Result<
    Vec<HyperliquidSeedPeer>,
    Report,
>)
    ensures
        match r {
            Ok(v) => spec_scrape_doc(s@, header@) matches Some(sc) && peers_match_pairs(
                v@,
                sc.filter(|p: (Seq<u8>, Ipv4)| !ignored@.contains(p.1)),
            ),
            Err(e) => spec_scrape_doc(s@, header@) is None && e.kind == ErrorKind::Source,
        },
{
    let scraped = match parse_seed_peer_document(s, header) {
        Err(e) => {
            return Err(e);
        },
        Ok(ps) => ps,
    };
    let ghost sc = scraped_view(scraped@);
    let mut peers: Vec<HyperliquidSeedPeer> = Vec::new();
    let mut rest = scraped;
    let ghost mut k: int = 0;
    proof {
        assert(sc.subrange(0, 0).map_values(
            |p: (Seq<u8>, Ipv4)|
                HyperliquidSeedPeer { ip: p.1, label: None },
        ) =~= Seq::<HyperliquidSeedPeer>::empty());
    }
    while rest.len() > 0
        invariant
            0 <= k <= sc.len(),
            rest@.len() == sc.len() - k,
            forall|j: int| 0 <= j < rest@.len() ==> scraped_view(rest@)[j] == sc[k + j],
            peers@.len() == k,
            forall|i: int| 0 <= i < k ==> peer_labelled_as(#[trigger] peers@[i], sc[i]),
        decreases rest@.len(),
    {
        let ghost prev = rest@;
        let p = rest.remove(0);
        proof {
            assert(p == prev[0]);
            assert(scraped_view(prev)[0] == (p.label@, p.ip));
            assert(rest@ =~= prev.subrange(1, prev.len() as int));
            assert forall|j: int| 0 <= j < rest@.len() implies scraped_view(rest@)[j] == sc[
                k + 1 + j
            ] by {
                assert(rest@[j] == prev[j + 1]);
                assert(scraped_view(prev)[j + 1] == (prev[j + 1].label@, prev[j + 1].ip));
            }
        }
        peers.push(HyperliquidSeedPeer { ip: p.ip, label: Some(p.label) });
        proof {
            k = k + 1;
        }
    }
    let filtered = filter_ignored_peers(peers, ignored);
    proof {
        lemma_labelled_filter(sc, ignored@);
    }
    Ok(filtered)
}

/// Filtering labelled peers by address tracks filtering their label and
/// address pairs.
proof fn lemma_labelled_filter(sc: Seq<(Seq<u8>, Ipv4)>, ignored: Seq<Ipv4>)
    ensures
        forall|ps: Seq<HyperliquidSeedPeer>|
            peers_match_pairs(ps, sc) ==> peers_match_pairs(
                #[trigger] ps.filter(not_ignored(ignored)),
                sc.filter(|p: (Seq<u8>, Ipv4)| !ignored.contains(p.1)),
            ),
    decreases sc.len(),
{
    reveal(Seq::filter);
    if sc.len() > 0 {
        lemma_labelled_filter(sc.drop_last(), ignored);
        assert forall|ps: Seq<HyperliquidSeedPeer>| peers_match_pairs(ps, sc)
            implies peers_match_pairs(
            ps.filter(not_ignored(ignored)),
            sc.filter(|p: (Seq<u8>, Ipv4)| !ignored.contains(p.1)),
        ) by {
            let pre = ps.drop_last();
            assert(peers_match_pairs(pre, sc.drop_last())) by {
                assert forall|i: int| 0 <= i < sc.drop_last().len() implies peer_labelled_as(
                    #[trigger] pre[i],
                    sc.drop_last()[i],
                ) by {
                    assert(pre[i] == ps[i]);
                    assert(peer_labelled_as(ps[i], sc[i]));
                }
            }
            assert(peers_match_pairs(
                pre.filter(not_ignored(ignored)),
                sc.drop_last().filter(|p: (Seq<u8>, Ipv4)| !ignored.contains(p.1)),
            ));
            assert(peer_labelled_as(ps.last(), sc.last()));
            let fp = pre.filter(not_ignored(ignored));
            let fk = sc.drop_last().filter(|p: (Seq<u8>, Ipv4)| !ignored.contains(p.1));
            if not_ignored(ignored)(ps.last()) {
                assert(ps.filter(not_ignored(ignored)) == fp.push(ps.last()));
                assert(sc.filter(|p: (Seq<u8>, Ipv4)| !ignored.contains(p.1)) == fk.push(
                    sc.last(),
                ));
                assert forall|i: int|
                    0 <= i < fk.push(sc.last()).len() implies peer_labelled_as(
                    #[trigger] fp.push(ps.last())[i],
                    fk.push(sc.last())[i],
                ) by {
                    if i < fk.len() {
                        assert(fp.push(ps.last())[i] == fp[i]);
                        assert(fk.push(sc.last())[i] == fk[i]);
                    } else {
                        assert(fp.push(ps.last())[i] == ps.last());
                        assert(fk.push(sc.last())[i] == sc.last());
                    }
                }
            } else {
                assert(ps.filter(not_ignored(ignored)) == fp);
                assert(sc.filter(|p: (Seq<u8>, Ipv4)| !ignored.contains(p.1)) == fk);
            }
        }
    }
}

} // verus!
