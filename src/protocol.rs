//! The values exchanged between the watcher, the runtime process and clients,
//! and their JSON text.
use vstd::prelude::*;

verus! {

/// What happened to a watched file.
#[derive(Clone, Copy, Debug, PartialEq, Eq, Structural)]
pub enum ChangeType {
    FileModified,
    FileAdded,
    FileRemoved,
}

/// One change to a file of a resource.
#[derive(Clone, Debug)]
pub struct ResourceChange {
    pub resource_name: String,
    pub change_type: ChangeType,
    pub file_path: String,
}

/// The first message of a client that is not on the loopback interface.
#[derive(Clone, Debug)]
pub struct AuthRequest {
    pub api_key: String,
}

/// The answer to an `AuthRequest`.
#[derive(Clone, Debug)]
pub enum AuthResponse {
    Success,
    Failed(String),
}

/// The snapshot sent once per session: each resource's name with its files,
/// resources in scan order.
#[derive(Clone, Debug)]
pub struct InitialData {
    pub resources_path: String,
    pub resources: Vec<(String, Vec<String>)>,
}

/// A frame that the watcher sends to a client.
#[derive(Clone, Debug)]
pub enum ServerFrame {
    Snapshot(InitialData),
    Batch(Vec<String>),
    Notification(String),
}

/// What `serde_json::to_string` returns for a string: the string quoted and escaped.
pub uninterp spec fn json_string_of(s: Seq<char>) -> Seq<char>;

/// Relies on `serde_json::to_string` on a `str`: serialising a string into a
/// byte buffer cannot fail, and yields the quoted, escaped string.
#[verifier::external_body]
pub(crate) fn json_quote(s: &str) -> (r: String)
    ensures
        r@ == json_string_of(s@),
{
    serde_json::to_string(s).unwrap_or_default()
}

/// `parts` separated by commas.
pub open spec fn comma_joined(parts: Seq<Seq<char>>) -> Seq<char>
    decreases parts.len(),
{
    if parts.len() == 0 {
        Seq::empty()
    } else if parts.len() == 1 {
        parts[0]
    } else {
        comma_joined(parts.drop_last()) + ","@ + parts.last()
    }
}

/// A JSON array of the given element texts.
pub open spec fn json_array(parts: Seq<Seq<char>>) -> Seq<char> {
    "["@ + comma_joined(parts) + "]"@
}

pub open spec fn change_type_json(t: ChangeType) -> Seq<char> {
    match t {
        ChangeType::FileModified => "\"FileModified\""@,
        ChangeType::FileAdded => "\"FileAdded\""@,
        ChangeType::FileRemoved => "\"FileRemoved\""@,
    }
}

/// The JSON object of a change, as sent to the runtime process.
pub open spec fn change_json(name: Seq<char>, t: ChangeType, path: Seq<char>) -> Seq<char> {
    "{\"resource_name\":"@ + json_string_of(name) + ",\"change_type\":"@ + change_type_json(t)
        + ",\"file_path\":"@ + json_string_of(path) + "}"@
}

/// The JSON text of an authentication answer.
pub open spec fn auth_response_json(success: bool, reason: Seq<char>) -> Seq<char> {
    if success {
        "\"Success\""@
    } else {
        "{\"Failed\":"@ + json_string_of(reason) + "}"@
    }
}

/// One notification entry: a reply of the runtime process.
pub open spec fn notification_json(m: Seq<char>) -> Seq<char> {
    "{\"type\":\"fivem_response\",\"message\":"@ + json_string_of(m) + "}"@
}

/// A batch frame of notifications, in the given order.
pub open spec fn batch_json(msgs: Seq<Seq<char>>) -> Seq<char> {
    "{\"type\":\"batch\",\"messages\":"@ + json_array(msgs.map_values(|m: Seq<char>| notification_json(m)))
        + "}"@
}

/// One resource of a snapshot: `"name":["file",...]`.
pub open spec fn resource_entry_json(e: (Seq<char>, Seq<Seq<char>>)) -> Seq<char> {
    json_string_of(e.0) + ":"@ + json_array(e.1.map_values(|f: Seq<char>| json_string_of(f)))
}

/// The snapshot frame.
pub open spec fn snapshot_json(path: Seq<char>, res: Seq<(Seq<char>, Seq<Seq<char>>)>) -> Seq<char> {
    "{\"resources_path\":"@ + json_string_of(path) + ",\"resources\":{"@ + comma_joined(
        res.map_values(|e: (Seq<char>, Seq<Seq<char>>)| resource_entry_json(e)),
    ) + "}}"@
}

proof fn lemma_comma_joined_step(parts: Seq<Seq<char>>, i: int)
    requires
        0 <= i < parts.len(),
    ensures
        comma_joined(parts.take(i + 1)) == comma_joined(parts.take(i)) + (if i == 0 {
            Seq::<char>::empty()
        } else {
            ","@
        }) + parts[i],
{
    let t = parts.take(i + 1);
    assert(t.drop_last() =~= parts.take(i));
    if i == 0 {
        assert(comma_joined(parts.take(0)) =~= Seq::<char>::empty());
        assert(Seq::<char>::empty() + Seq::<char>::empty() + parts[0] =~= parts[0]);
    }
}

impl ChangeType {
    /// The JSON text of the variant.
    pub fn to_json(&self) -> (r: String)
        ensures
            r@ == change_type_json(*self),
    {
        match self {
            ChangeType::FileModified => String::from_str("\"FileModified\""),
            ChangeType::FileAdded => String::from_str("\"FileAdded\""),
            ChangeType::FileRemoved => String::from_str("\"FileRemoved\""),
        }
    }
}

impl ResourceChange {
    /// The JSON text sent to the runtime process for this change.
    pub fn to_json(&self) -> (r: String)
        ensures
            r@ == change_json(self.resource_name@, self.change_type, self.file_path@),
    {
        let mut out = String::from_str("{\"resource_name\":");
        out.append(json_quote(self.resource_name.as_str()).as_str());
        out.append(",\"change_type\":");
        out.append(self.change_type.to_json().as_str());
        out.append(",\"file_path\":");
        out.append(json_quote(self.file_path.as_str()).as_str());
        out.append("}");
        out
    }
}

impl AuthResponse {
    /// The JSON text sent to the client.
    pub fn to_json(&self) -> (r: String)
        ensures
            r@ == match self {
                AuthResponse::Success => auth_response_json(true, Seq::empty()),
                AuthResponse::Failed(reason) => auth_response_json(false, reason@),
            },
    {
        match self {
            AuthResponse::Success => String::from_str("\"Success\""),
            AuthResponse::Failed(reason) => {
                let mut out = String::from_str("{\"Failed\":");
                out.append(json_quote(reason.as_str()).as_str());
                out.append("}");
                out
            },
        }
    }
}

/// Appends `parts` separated by commas, each part rendered by `json_quote`.
fn push_quoted_list(out: &mut String, items: &Vec<String>)
    ensures
        final(out)@ == old(out)@ + comma_joined(
            items@.map_values(|f: String| json_string_of(f@)),
        ),
{
    let ghost parts = items@.map_values(|f: String| json_string_of(f@));
    let ghost start = out@;
    let mut i: usize = 0;
    proof {
        assert(parts.take(0) =~= Seq::<Seq<char>>::empty());
    }
    while i < items.len()
        invariant
            i <= items.len(),
            parts == items@.map_values(|f: String| json_string_of(f@)),
            out@ == start + comma_joined(parts.take(i as int)),
        decreases items.len() - i,
    {
        proof {
            lemma_comma_joined_step(parts, i as int);
        }
        if i > 0 {
            out.append(",");
        }
        out.append(json_quote(items[i].as_str()).as_str());
        assert(out@ =~= start + comma_joined(parts.take(i + 1)));
        i = i + 1;
    }
    assert(parts.take(items.len() as int) =~= parts);
}

/// The JSON text of a batch frame holding `msgs` in order.
pub fn encode_batch(msgs: &Vec<String>) -> (r: String)
    ensures
        r@ == batch_json(msgs@.map_values(|m: String| m@)),
{
    let ghost views = msgs@.map_values(|m: String| m@);
    let ghost parts = views.map_values(|m: Seq<char>| notification_json(m));
    let mut out = String::from_str("{\"type\":\"batch\",\"messages\":[");
    let ghost start = out@;
    let mut i: usize = 0;
    proof {
        assert(parts.take(0) =~= Seq::<Seq<char>>::empty());
    }
    while i < msgs.len()
        invariant
            i <= msgs.len(),
            views == msgs@.map_values(|m: String| m@),
            parts == views.map_values(|m: Seq<char>| notification_json(m)),
            start == "{\"type\":\"batch\",\"messages\":["@,
            out@ == start + comma_joined(parts.take(i as int)),
        decreases msgs.len() - i,
    {
        proof {
            lemma_comma_joined_step(parts, i as int);
        }
        if i > 0 {
            out.append(",");
        }
        out.append(encode_notification(&msgs[i]).as_str());
        proof {
            assert(out@ =~= start + comma_joined(parts.take(i + 1)));
        }
        i = i + 1;
    }
    assert(parts.take(msgs.len() as int) =~= parts);
    out.append("]}");
    proof {
        assert("{\"type\":\"batch\",\"messages\":"@ + json_array(parts) + "}"@ =~= out@) by {
            reveal_strlit("{\"type\":\"batch\",\"messages\":[");
            reveal_strlit("{\"type\":\"batch\",\"messages\":");
            reveal_strlit("[");
            reveal_strlit("]");
            reveal_strlit("}");
            reveal_strlit("]}");
        }
    }
    out
}

/// The JSON text of one notification, outside a batch.
pub fn encode_notification(m: &String) -> (r: String)
    ensures
        r@ == notification_json(m@),
{
    let mut out = String::from_str("{\"type\":\"fivem_response\",\"message\":");
    out.append(json_quote(m.as_str()).as_str());
    out.append("}");
    out
}

impl InitialData {
    /// The JSON text of the snapshot frame.
    pub fn to_json(&self) -> (r: String)
        ensures
            r@ == snapshot_json(self.resources_path@, self.resources.deep_view()),
    {
        let ghost res = self.resources.deep_view();
        let ghost parts = res.map_values(|e: (Seq<char>, Seq<Seq<char>>)| resource_entry_json(e));
        let mut out = String::from_str("{\"resources_path\":");
        out.append(json_quote(self.resources_path.as_str()).as_str());
        out.append(",\"resources\":{");
        let ghost start = out@;
        let mut i: usize = 0;
        proof {
            assert(parts.take(0) =~= Seq::<Seq<char>>::empty());
        }
        while i < self.resources.len()
            invariant
                i <= self.resources.len(),
                res == self.resources.deep_view(),
                parts == res.map_values(|e: (Seq<char>, Seq<Seq<char>>)| resource_entry_json(e)),
                out@ == start + comma_joined(parts.take(i as int)),
            decreases self.resources.len() - i,
        {
            proof {
                lemma_comma_joined_step(parts, i as int);
            }
            if i > 0 {
                out.append(",");
            }
            let ghost before = out@;
            out.append(json_quote(self.resources[i].0.as_str()).as_str());
            out.append(":[");
            push_quoted_list(&mut out, &self.resources[i].1);
            out.append("]");
            proof {
                let e = res[i as int];
                assert(e.1 =~= self.resources[i as int].1@.map_values(|f: String| f@));
                assert(e.1.map_values(|f: Seq<char>| json_string_of(f)) =~= self.resources[i as int].1@.map_values(
                    |f: String| json_string_of(f@),
                ));
                assert(out@ =~= before + resource_entry_json(e)) by {
                    reveal_strlit(":[");
                    reveal_strlit(":");
                    reveal_strlit("[");
                    reveal_strlit("]");
                }
                assert(out@ =~= start + comma_joined(parts.take(i + 1)));
            }
            i = i + 1;
        }
        assert(parts.take(self.resources.len() as int) =~= parts);
        out.append("}}");
        out
    }
}

impl ServerFrame {
    /// The JSON text of the frame.
    pub fn to_json(&self) -> (r: String)
        ensures
            r@ == match self {
                ServerFrame::Snapshot(d) => snapshot_json(d.resources_path@, d.resources.deep_view()),
                ServerFrame::Batch(msgs) => batch_json(msgs@.map_values(|m: String| m@)),
                ServerFrame::Notification(m) => notification_json(m@),
            },
    {
        match self {
            ServerFrame::Snapshot(d) => d.to_json(),
            ServerFrame::Batch(msgs) => encode_batch(msgs),
            ServerFrame::Notification(m) => encode_notification(m),
        }
    }
}

} // verus!
