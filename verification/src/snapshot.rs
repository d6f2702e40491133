//! On-demand data-snapshot requests: the snapshot kinds, the file name a
//! snapshot is written under, and the request payload handed to the node.

use vstd::prelude::*;

verus! {

/// The kinds of file snapshot the node can be asked to produce.
#[derive(Clone, Copy, Debug, PartialEq, Eq, Structural)]
pub enum FileSnapshotType {
    L4Snapshots { include_users: bool, include_trigger_orders: bool },
    ReferrerStates,
}

impl FileSnapshotType {
    /// The wire name of this snapshot kind.
    pub open spec fn spec_kind_name(self) -> Seq<char> {
        match self {
            FileSnapshotType::L4Snapshots { .. } => "l4Snapshots"@,
            FileSnapshotType::ReferrerStates => "referrerStates"@,
        }
    }

    pub fn kind_name(&self) -> (r: &'static str)
        ensures
            r@ == self.spec_kind_name(),
    {
        match self {
            FileSnapshotType::L4Snapshots { .. } => "l4Snapshots",
            FileSnapshotType::ReferrerStates => "referrerStates",
        }
    }
}

/// Unless a request says otherwise, the node is asked to include the
/// chain height in its output.
pub fn default_include_height_in_output() -> (r: bool)
    ensures
        r == true,
{
    true
}

/// Whether `c` is a lowercase hexadecimal digit or a hyphen — the only
/// characters a rendered snapshot identifier holds.
pub open spec fn is_id_char(c: char) -> bool {
    ('0' <= c && c <= '9') || ('a' <= c && c <= 'f') || c == '-'
}

/// Relies on uuid's `Uuid::now_v7` and its `Display` form: the hyphenated
/// rendering is exactly 36 characters, each a lowercase hexadecimal digit
/// or a hyphen. Nothing more is assumed: the value depends on the clock.
#[verifier::external_body]
fn fresh_snapshot_id() -> (r: String)
    ensures
        r@.len() == 36,
        forall|i: int| 0 <= i < r@.len() ==> is_id_char(#[trigger] r@[i]),
{
    uuid::Uuid::now_v7().to_string()
}

/// The file name a snapshot with this identifier is written under.
pub open spec fn spec_snapshot_file_name(t: FileSnapshotType, id: Seq<char>) -> Seq<char> {
    t.spec_kind_name() + "_"@ + id + ".json"@
}

/// The file name for a snapshot of kind `t` under `base`: the kind's wire
/// name, an underscore, a fresh time-ordered identifier, and a `.json`
/// suffix, joined to `base` with a slash.
pub fn create_file_snapshot_path(base: &str, t: &FileSnapshotType) -> (r: String)
    ensures
        exists|id: Seq<char>|
            {
                &&& r@ == base@ + "/"@ + spec_snapshot_file_name(*t, id)
                &&& id.len() == 36
                &&& forall|i: int| 0 <= i < id.len() ==> is_id_char(#[trigger] id[i])
            },
{
    let id = fresh_snapshot_id();
    let ghost id_view = id@;
    let mut out = base.to_owned();
    out.append("/");
    out.append(t.kind_name());
    out.append("_");
    out.append(id.as_str());
    out.append(".json");
    proof {
        assert(out@ == base@ + "/"@ + spec_snapshot_file_name(*t, id_view));
    }
    out
}

/// Whether a character may stand unescaped inside a JSON string.
pub open spec fn json_plain_char(c: char) -> bool {
    c != '"' && c != '\\' && ' ' <= c
}

/// The request body for a snapshot of kind `t`, as sent to the node.
pub open spec fn spec_snapshot_request(t: FileSnapshotType) -> Seq<char> {
    match t {
        FileSnapshotType::L4Snapshots { include_users, include_trigger_orders } => {
            "{\"type\":\"l4Snapshots\",\"includeUsers\":"@ + spec_bool_chars(include_users)
                + ",\"includeTriggerOrders\":"@ + spec_bool_chars(include_trigger_orders) + "}"@
        },
        FileSnapshotType::ReferrerStates => "{\"type\":\"referrerStates\"}"@,
    }
}

pub open spec fn spec_bool_chars(b: bool) -> Seq<char> {
    if b {
        "true"@
    } else {
        "false"@
    }
}

/// The full payload asking the node to write a snapshot to `out_path`.
pub open spec fn spec_snapshot_payload(
    t: FileSnapshotType,
    include_height_in_output: bool,
    out_path: Seq<char>,
) -> Seq<char> {
    "{\"type\":\"fileSnapshot\",\"request\":"@ + spec_snapshot_request(t)
        + ",\"includeHeightInOutput\":"@ + spec_bool_chars(include_height_in_output)
        + ",\"outPath\":\""@ + out_path + "\"}"@
}

/// Build the payload asking the node to write a snapshot of kind `t` to
/// `out_path`. The path must hold only characters that stand unescaped
/// inside a JSON string.
pub fn create_file_snapshot_payload(
    t: &FileSnapshotType,
    include_height_in_output: bool,
    out_path: &str,
) -> (r: String)
    requires
        forall|i: int| 0 <= i < out_path@.len() ==> json_plain_char(#[trigger] out_path@[i]),
    ensures
        r@ == spec_snapshot_payload(*t, include_height_in_output, out_path@),
{
    let mut out = String::new();
    out.append("{\"type\":\"fileSnapshot\",\"request\":");
    match t {
        FileSnapshotType::L4Snapshots { include_users, include_trigger_orders } => {
            out.append("{\"type\":\"l4Snapshots\",\"includeUsers\":");
            out.append(if *include_users {
                "true"
            } else {
                "false"
            });
            out.append(",\"includeTriggerOrders\":");
            out.append(if *include_trigger_orders {
                "true"
            } else {
                "false"
            });
            out.append("}");
        },
        FileSnapshotType::ReferrerStates => {
            out.append("{\"type\":\"referrerStates\"}");
        },
    }
    out.append(",\"includeHeightInOutput\":");
    out.append(if include_height_in_output {
        "true"
    } else {
        "false"
    });
    out.append(",\"outPath\":\"");
    out.append(out_path);
    out.append("\"}");
    proof {
        assert(out@ == spec_snapshot_payload(*t, include_height_in_output, out_path@));
    }
    out
}

} // verus!
