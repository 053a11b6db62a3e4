//! Routing of the virtual microphone.
//!
//! The virtual microphone is made of two loopbacks inside the audio graph. The
//! bridge has a sink on one side and a source on the other: what is played into the
//! sink comes out of the source. The second loopback plays the physical microphone
//! into the sink, so that the user's voice is part of the virtual microphone even
//! when the soundboard is not running. A drop-in file recreates both at login;
//! while the soundboard runs it takes the microphone over, to put its effects on
//! it, and the second loopback has to go.

use vstd::prelude::*;

use super::virtual_device::{AudioNode, SINK_NAME, SOURCE_NAME};
use crate::path::{join, joined};
use crate::search::{filter_positions, first_index, first_index_holds, found_first, found_none};
use crate::text::{
    concat, concat_all, contains, has_part, has_prefix, occurs_at, parts_are_in_the_text,
    same_text, starts_with, trim, trimmed, views,
};

verus! {

pub const MIC_IN_NAME: &'static str = "resonate_mic_in";

pub const MIC_OUT_NAME: &'static str = "resonate_mic_out";

/// What to set up for the virtual microphone.
pub struct RoutingPlan {
    /// The physical microphone to capture from, or `None` if there is none.
    pub mic_target: Option<String>,
    /// Whether the bridge between sink and source has to be created, because it is
    /// not in the graph yet.
    pub create_bridge: bool,
    /// What the drop-in file for the next login says.
    pub dropin: String,
}

/// A node of the soundboard's own.
pub open spec fn is_ours(name: Seq<char>) -> bool {
    has_prefix(name, "resonate"@)
}

/// Where the drop-in file is kept under the user's configuration folder.
pub fn dropin_path(config_dir: &str) -> (r: String)
    ensures
        r@ == joined(
            joined(joined(config_dir@, "pipewire"@), "pipewire.conf.d"@),
            "resonate.conf"@,
        ),
{
    let a: String = join(config_dir, "pipewire");
    let b: String = join(a.as_str(), "pipewire.conf.d");
    join(b.as_str(), "resonate.conf")
}

// ── The physical microphone ──────────────────────────────────────────────────

/// The device that the settings name.
pub open spec fn is_chosen(description: Seq<char>) -> spec_fn(AudioNode) -> bool {
    |n: AudioNode| n.description@ == description && !is_ours(n.name@)
}

/// A real capture device.
pub open spec fn is_capture() -> spec_fn(AudioNode) -> bool {
    |n: AudioNode|
        has_part(n.media_class@, "Source"@) && !is_ours(n.name@) && has_prefix(
            n.name@,
            "alsa_input"@,
        )
}

pub open spec fn name_at(nodes: Seq<AudioNode>, i: Option<int>) -> Option<Seq<char>> {
    match i {
        Some(i) => Some(nodes[i].name@),
        None => None,
    }
}

/// The physical source to feed into the sink: the device chosen in the settings;
/// without one, the system's default source, unless it is the virtual microphone
/// itself; failing that, the first real capture device.
pub open spec fn physical_mic(
    configured: Seq<char>,
    nodes: Seq<AudioNode>,
    default_source: Option<Seq<char>>,
) -> Option<Seq<char>> {
    if configured.len() > 0 && first_index(nodes, is_chosen(configured)) is Some {
        name_at(nodes, first_index(nodes, is_chosen(configured)))
    } else if default_source is Some && trimmed(default_source->0).len() > 0 && !is_ours(
        trimmed(default_source->0),
    ) {
        Some(trimmed(default_source->0))
    } else {
        name_at(nodes, first_index(nodes, is_capture()))
    }
}

fn find_chosen(nodes: &Vec<AudioNode>, description: &str) -> (r: Option<usize>)
    ensures
        match r {
            Some(i) => first_index(nodes@, is_chosen(description@)) == Some(i as int),
            None => first_index(nodes@, is_chosen(description@)) is None,
        },
        r matches Some(i) ==> i < nodes@.len(),
{
    let ghost p = is_chosen(description@);
    let mut i: usize = 0;
    while i < nodes.len()
        invariant
            i <= nodes@.len(),
            p == is_chosen(description@),
            forall|k: int| 0 <= k < i ==> !p(#[trigger] nodes@[k]),
        decreases nodes@.len() - i,
    {
        if same_text(nodes[i].description.as_str(), description) && !starts_with(
            nodes[i].name.as_str(),
            "resonate",
        ) {
            proof {
                found_first(nodes@, p, i as int);
            }
            return Some(i);
        }
        i = i + 1;
    }
    proof {
        found_none(nodes@, p);
    }
    None
}

fn find_capture(nodes: &Vec<AudioNode>) -> (r: Option<usize>)
    ensures
        match r {
            Some(i) => first_index(nodes@, is_capture()) == Some(i as int),
            None => first_index(nodes@, is_capture()) is None,
        },
        r matches Some(i) ==> i < nodes@.len(),
{
    let ghost p = is_capture();
    let mut i: usize = 0;
    while i < nodes.len()
        invariant
            i <= nodes@.len(),
            p == is_capture(),
            forall|k: int| 0 <= k < i ==> !p(#[trigger] nodes@[k]),
        decreases nodes@.len() - i,
    {
        if contains(nodes[i].media_class.as_str(), "Source") && !starts_with(
            nodes[i].name.as_str(),
            "resonate",
        ) && starts_with(nodes[i].name.as_str(), "alsa_input") {
            proof {
                found_first(nodes@, p, i as int);
            }
            return Some(i);
        }
        i = i + 1;
    }
    proof {
        found_none(nodes@, p);
    }
    None
}

/// Resolves which physical source to feed into the sink. `default_source` is what
/// the system reports as its default, if it could be asked.
pub fn detect_physical_mic(
    configured_desc: &str,
    nodes: &Vec<AudioNode>,
    default_source: Option<&str>,
) -> (r: Option<String>)
    ensures
        (match r {
            Some(name) => Some(name@),
            None => None,
        }) == physical_mic(
            configured_desc@,
            nodes@,
            match default_source {
                Some(name) => Some(name@),
                None => None,
            },
        ),
{
    if configured_desc.unicode_len() > 0 {
        match find_chosen(nodes, configured_desc) {
            Some(i) => {
                return Some(nodes[i].name.clone());
            },
            None => {},
        }
    }
    match default_source {
        Some(reported) => {
            let name: String = trim(reported);
            if name.as_str().unicode_len() > 0 && !starts_with(name.as_str(), "resonate") {
                return Some(name);
            }
        },
        None => {},
    }
    match find_capture(nodes) {
        Some(i) => Some(nodes[i].name.clone()),
        None => None,
    }
}

/// The virtual microphone never listens to itself: the source to capture from is
/// not one of the soundboard's own nodes.
pub proof fn no_feedback(
    configured: Seq<char>,
    nodes: Seq<AudioNode>,
    default_source: Option<Seq<char>>,
)
    ensures
        physical_mic(configured, nodes, default_source) matches Some(name) ==> !is_ours(name),
{
    first_index_holds(nodes, is_chosen(configured));
    first_index_holds(nodes, is_capture());
}

// ── Claiming the microphone ──────────────────────────────────────────────────

/// One of the nodes has the given name.
pub open spec fn has_node(nodes: Seq<AudioNode>, name: Seq<char>) -> bool {
    exists|i: int| 0 <= i < nodes.len() && (#[trigger] nodes[i]).name@ == name
}

fn node_exists(nodes: &Vec<AudioNode>, name: &str) -> (r: bool)
    ensures
        r == has_node(nodes@, name@),
{
    let mut i: usize = 0;
    while i < nodes.len()
        invariant
            i <= nodes@.len(),
            forall|k: int| 0 <= k < i ==> (#[trigger] nodes@[k]).name@ != name@,
        decreases nodes@.len() - i,
    {
        if same_text(nodes[i].name.as_str(), name) {
            return true;
        }
        i = i + 1;
    }
    false
}

/// One end of the bridge is missing.
pub open spec fn needs_bridge(nodes: Seq<AudioNode>) -> bool {
    !(has_node(nodes, SINK_NAME@) && has_node(nodes, SOURCE_NAME@))
}

/// `r` is the plan for the microphone.
pub open spec fn is_claim(
    source_desc: Seq<char>,
    configured: Seq<char>,
    nodes: Seq<AudioNode>,
    default_source: Option<Seq<char>>,
    r: RoutingPlan,
) -> bool {
    let mic = physical_mic(configured, nodes, default_source);
    &&& (match r.mic_target {
        Some(name) => Some(name@),
        None => None,
    }) == mic
    &&& r.dropin@ == dropin_text(source_desc, mic)
    &&& r.create_bridge == needs_bridge(nodes)
}

/// Claims the microphone for the effects of the soundboard: decides what to capture
/// from, what the drop-in says and whether the bridge has to be created. `nodes` is
/// the graph as it is, `default_source` what the system reports as its default.
pub fn claim_routing(
    source_desc: &str,
    input_dev_desc: &str,
    nodes: &Vec<AudioNode>,
    default_source: Option<&str>,
) -> (r: RoutingPlan)
    ensures
        is_claim(
            source_desc@,
            input_dev_desc@,
            nodes@,
            match default_source {
                Some(name) => Some(name@),
                None => None,
            },
            r,
        ),
{
    let mic: Option<String> = detect_physical_mic(input_dev_desc, nodes, default_source);
    let dropin: String = match &mic {
        Some(name) => generate_dropin(source_desc, Some(name.as_str())),
        None => generate_dropin(source_desc, None),
    };
    let have_bridge: bool = node_exists(nodes, SINK_NAME) && node_exists(nodes, SOURCE_NAME);
    RoutingPlan { mic_target: mic, create_bridge: !have_bridge, dropin }
}

/// A node of the loopback that plays the raw microphone.
pub open spec fn is_raw_loopback() -> spec_fn(AudioNode) -> bool {
    |n: AudioNode| n.name@ == MIC_IN_NAME@ || n.name@ == MIC_OUT_NAME@
}

/// The nodes to remove, so that the microphone is not fed to the sink twice.
pub open spec fn raw_loopbacks(nodes: Seq<AudioNode>) -> Seq<u32> {
    nodes.filter(is_raw_loopback()).map_values(|n: AudioNode| n.id)
}

/// The nodes of the loopback that plays the raw microphone.
pub fn raw_loopback_ids(nodes: &Vec<AudioNode>) -> (r: Vec<u32>)
    ensures
        r@ == raw_loopbacks(nodes@),
{
    let mut r: Vec<u32> = Vec::new();
    let mut i: usize = 0;
    reveal(Seq::filter);
    assert(r@ =~= raw_loopbacks(nodes@.take(0)));
    while i < nodes.len()
        invariant
            i <= nodes@.len(),
            r@ == raw_loopbacks(nodes@.take(i as int)),
        decreases nodes@.len() - i,
    {
        let ghost before = nodes@.take(i as int);
        let ghost after = nodes@.take(i + 1);
        proof {
            reveal(Seq::filter);
            assert(after.drop_last() =~= before);
            assert(after.last() == nodes@[i as int]);
        }
        if same_text(nodes[i].name.as_str(), MIC_IN_NAME) || same_text(
            nodes[i].name.as_str(),
            MIC_OUT_NAME,
        ) {
            r.push(nodes[i].id);
        }
        assert(r@ =~= raw_loopbacks(after));
        i = i + 1;
    }
    assert(nodes@.take(nodes@.len() as int) =~= nodes@);
    r
}

// ── Texts for the audio server ───────────────────────────────────────────────

pub const ARGS_TO_SINK: &'static str =
    "{ node.description = \"Resonate\" capture.props = { media.class = Audio/Sink node.name = \"";

pub const ARGS_TO_SOURCE: &'static str =
    "\" node.description = \"Resonate\" audio.position = [ FL FR ] } playback.props = { media.class = Audio/Source node.name = \"";

pub const ARGS_TO_DESCRIPTION: &'static str = "\" node.description = \"";

pub const ARGS_END: &'static str = "\" audio.position = [ FL FR ] } }";

/// What the arguments for the bridge are made of.
pub open spec fn bridge_parts(source_desc: Seq<char>) -> Seq<Seq<char>> {
    seq![
        ARGS_TO_SINK@,
        SINK_NAME@,
        ARGS_TO_SOURCE@,
        SOURCE_NAME@,
        ARGS_TO_DESCRIPTION@,
        source_desc,
        ARGS_END@,
    ]
}

/// The arguments for a loopback module that makes up the bridge.
pub open spec fn bridge_module(source_desc: Seq<char>) -> Seq<char> {
    concat(bridge_parts(source_desc))
}

/// Arguments for a loopback module that makes up the bridge: a sink whose playback
/// side is the virtual microphone, shown as `source_desc`.
pub fn bridge_module_args(source_desc: &str) -> (r: String)
    ensures
        r@ == bridge_module(source_desc@),
{
    let parts: Vec<&str> = vec![
        ARGS_TO_SINK,
        SINK_NAME,
        ARGS_TO_SOURCE,
        SOURCE_NAME,
        ARGS_TO_DESCRIPTION,
        source_desc,
        ARGS_END,
    ];
    assert(views(parts@) =~= seq![
        ARGS_TO_SINK@,
        SINK_NAME@,
        ARGS_TO_SOURCE@,
        SOURCE_NAME@,
        ARGS_TO_DESCRIPTION@,
        source_desc@,
        ARGS_END@,
    ]);
    concat_all(&parts)
}

pub const DROPIN_HEAD: &'static str = "# Resonate virtual microphone routing.
# Auto-generated by Resonate — manual edits are overwritten.
context.modules = [
    { name = libpipewire-module-loopback
      args = {
          node.description = \"Resonate\"
          capture.props = {
              media.class = Audio/Sink
              node.name = \"";

pub const DROPIN_TO_SOURCE: &'static str = "\"
              node.description = \"Resonate\"
              audio.position = [ FL FR ]
          }
          playback.props = {
              media.class = Audio/Source
              node.name = \"";

pub const DROPIN_TO_DESCRIPTION: &'static str = "\"
              node.description = \"";

pub const DROPIN_MODULE_END: &'static str = "\"
              audio.position = [ FL FR ]
          }
      }
    }
";

pub const DROPIN_MIC: &'static str = "    { name = libpipewire-module-loopback
      args = {
          node.description = \"Resonate Mic Pass-through\"
          capture.props = {
              node.name = \"";

pub const DROPIN_TO_TARGET: &'static str = "\"
              node.target = \"";

pub const DROPIN_TO_MIC_OUT: &'static str = "\"
          }
          playback.props = {
              media.class = Stream/Output/Audio
              node.name = \"";

pub const DROPIN_END: &'static str = "]
";

/// The module that makes up the bridge.
pub open spec fn bridge_text(source_desc: Seq<char>) -> Seq<char> {
    concat(
        seq![
            DROPIN_HEAD@,
            SINK_NAME@,
            DROPIN_TO_SOURCE@,
            SOURCE_NAME@,
            DROPIN_TO_DESCRIPTION@,
            source_desc,
            DROPIN_MODULE_END@,
        ],
    )
}

/// The module that plays the microphone into the sink.
pub open spec fn mic_text(mic: Seq<char>) -> Seq<char> {
    concat(
        seq![
            DROPIN_MIC@,
            MIC_IN_NAME@,
            DROPIN_TO_TARGET@,
            mic,
            DROPIN_TO_MIC_OUT@,
            MIC_OUT_NAME@,
            DROPIN_TO_TARGET@,
            SINK_NAME@,
            DROPIN_MODULE_END@,
        ],
    )
}

/// The drop-in: the bridge, and the microphone if there is one to pin it to.
pub open spec fn dropin_text(source_desc: Seq<char>, mic: Option<Seq<char>>) -> Seq<char> {
    match mic {
        Some(mic) => bridge_text(source_desc) + mic_text(mic) + DROPIN_END@,
        None => bridge_text(source_desc) + DROPIN_END@,
    }
}

/// What the drop-in file says.
pub fn generate_dropin(source_desc: &str, mic_node: Option<&str>) -> (r: String)
    ensures
        r@ == dropin_text(
            source_desc@,
            match mic_node {
                Some(mic) => Some(mic@),
                None => None,
            },
        ),
{
    let bridge: Vec<&str> = vec![
        DROPIN_HEAD,
        SINK_NAME,
        DROPIN_TO_SOURCE,
        SOURCE_NAME,
        DROPIN_TO_DESCRIPTION,
        source_desc,
        DROPIN_MODULE_END,
    ];
    assert(views(bridge@) =~= seq![
        DROPIN_HEAD@,
        SINK_NAME@,
        DROPIN_TO_SOURCE@,
        SOURCE_NAME@,
        DROPIN_TO_DESCRIPTION@,
        source_desc@,
        DROPIN_MODULE_END@,
    ]);
    let mut r: String = concat_all(&bridge);
    match mic_node {
        Some(mic) => {
            let parts: Vec<&str> = vec![
                DROPIN_MIC,
                MIC_IN_NAME,
                DROPIN_TO_TARGET,
                mic,
                DROPIN_TO_MIC_OUT,
                MIC_OUT_NAME,
                DROPIN_TO_TARGET,
                SINK_NAME,
                DROPIN_MODULE_END,
            ];
            assert(views(parts@) =~= seq![
                DROPIN_MIC@,
                MIC_IN_NAME@,
                DROPIN_TO_TARGET@,
                mic@,
                DROPIN_TO_MIC_OUT@,
                MIC_OUT_NAME@,
                DROPIN_TO_TARGET@,
                SINK_NAME@,
                DROPIN_MODULE_END@,
            ]);
            let text: String = concat_all(&parts);
            r.append(text.as_str());
        },
        None => {},
    }
    r.append(DROPIN_END);
    r
}

/// The drop-in does not say what it has to.
pub open spec fn is_outdated(existing: Option<Seq<char>>, content: Seq<char>) -> bool {
    !(existing matches Some(text) && text == content)
}

/// Whether the drop-in has to be written: only if the file does not say the same
/// already. `existing` is what it says, if it could be read.
pub fn dropin_outdated(existing: Option<&str>, content: &str) -> (r: bool)
    ensures
        r == is_outdated(
            match existing {
                Some(text) => Some(text@),
                None => None,
            },
            content@,
        ),
{
    match existing {
        Some(text) => !same_text(text, content),
        None => true,
    }
}

// ── Laws ─────────────────────────────────────────────────────────────────────

/// No character of the text is an underscore.
spec fn without_underscore(s: Seq<char>) -> bool {
    forall|i: int| 0 <= i < s.len() ==> #[trigger] s[i] != '_'
}

/// No underscore of the text is followed by an `m`.
spec fn without_mark(s: Seq<char>) -> bool {
    forall|i: int| 0 <= i < s.len() - 1 && #[trigger] s[i] == '_' ==> s[i + 1] != 'm'
}

/// The name of a loopback of the microphone: an underscore and an `m` stand in its
/// middle, and no quotation mark.
spec fn is_mic_name(name: Seq<char>) -> bool {
    &&& name.len() > 9
    &&& name[8] == '_'
    &&& name[9] == 'm'
    &&& forall|i: int| 0 <= i < name.len() ==> #[trigger] name[i] != '"'
}

proof fn head_is_plain()
    ensures
        without_underscore(DROPIN_HEAD@),
{
    reveal_strlit("# Resonate virtual microphone routing.
# Auto-generated by Resonate — manual edits are overwritten.
context.modules = [
    { name = libpipewire-module-loopback
      args = {
          node.description = \"Resonate\"
          capture.props = {
              media.class = Audio/Sink
              node.name = \"");
}

proof fn to_source_is_plain()
    ensures
        without_underscore(DROPIN_TO_SOURCE@),
{
    reveal_strlit("\"
              node.description = \"Resonate\"
              audio.position = [ FL FR ]
          }
          playback.props = {
              media.class = Audio/Source
              node.name = \"");
}

proof fn to_description_is_plain()
    ensures
        without_underscore(DROPIN_TO_DESCRIPTION@),
        DROPIN_TO_DESCRIPTION@.len() > 0,
        DROPIN_TO_DESCRIPTION@.last() == '"',
{
    reveal_strlit("\"
              node.description = \"");
}

proof fn module_end_is_plain()
    ensures
        without_underscore(DROPIN_MODULE_END@),
        DROPIN_MODULE_END@.len() > 0,
        DROPIN_MODULE_END@[0] == '"',
{
    reveal_strlit("\"
              audio.position = [ FL FR ]
          }
      }
    }
");
}

proof fn end_is_plain()
    ensures
        without_underscore(DROPIN_END@),
{
    reveal_strlit("]
");
}

proof fn names_are_told_apart()
    ensures
        is_mic_name(MIC_IN_NAME@),
        is_mic_name(MIC_OUT_NAME@),
        without_mark(SINK_NAME@),
        without_mark(SOURCE_NAME@),
        SINK_NAME@.len() > 0 && SINK_NAME@.last() != '_',
        SOURCE_NAME@.len() > 0 && SOURCE_NAME@.last() != '_',
{
    reveal_strlit("resonate_mic_in");
    reveal_strlit("resonate_mic_out");
    reveal_strlit("resonate_sink");
    reveal_strlit("resonate_source");
}

proof fn marks_in_two(a: Seq<char>, b: Seq<char>)
    requires
        without_mark(a),
        without_mark(b),
        a.len() > 0 ==> a.last() != '_',
    ensures
        without_mark(a + b),
{
    let s = a + b;
    assert forall|i: int| 0 <= i < s.len() - 1 && #[trigger] s[i] == '_' implies s[i + 1]
        != 'm' by {
        if i < a.len() {
            assert(a[i] == '_');
        } else {
            assert(b[i - a.len()] == '_');
        }
    }
}

proof fn bridge_in_parts(desc: Seq<char>)
    ensures
        bridge_text(desc) == DROPIN_HEAD@ + SINK_NAME@ + DROPIN_TO_SOURCE@ + SOURCE_NAME@
            + DROPIN_TO_DESCRIPTION@ + desc + DROPIN_MODULE_END@,
{
    let (a, b, c) = (DROPIN_HEAD@, SINK_NAME@, DROPIN_TO_SOURCE@);
    let (d, e, g) = (SOURCE_NAME@, DROPIN_TO_DESCRIPTION@, DROPIN_MODULE_END@);
    reveal_with_fuel(concat, 8);
    assert(seq![a, b, c, d, e, desc, g].drop_last() =~= seq![a, b, c, d, e, desc]);
    assert(seq![a, b, c, d, e, desc].drop_last() =~= seq![a, b, c, d, e]);
    assert(seq![a, b, c, d, e].drop_last() =~= seq![a, b, c, d]);
    assert(seq![a, b, c, d].drop_last() =~= seq![a, b, c]);
    assert(seq![a, b, c].drop_last() =~= seq![a, b]);
    assert(seq![a, b].drop_last() =~= seq![a]);
    assert(seq![a].drop_last() =~= Seq::<Seq<char>>::empty());
    assert(Seq::<char>::empty() + a =~= a);
}

/// A name that stands in a text with a quoted part stands in that part, or in front of
/// it, or behind it.
proof fn found_beside_quotes(
    front: Seq<char>,
    quoted: Seq<char>,
    back: Seq<char>,
    name: Seq<char>,
    at: int,
)
    requires
        front.len() > 0 && front.last() == '"',
        back.len() > 0 && back[0] == '"',
        is_mic_name(name),
        !has_part(quoted, name),
        occurs_at(front + quoted + back, name, at),
    ensures
        occurs_at(front, name, at) || occurs_at(back, name, at - front.len() - quoted.len()),
{
    let s = front + quoted + back;
    let n = name.len() as int;
    let (p, q) = (front.len() as int, quoted.len() as int);
    assert forall|k: int| 0 <= k < n implies s[at + k] == #[trigger] name[k] by {
        assert(s.subrange(at, at + n)[k] == name[k]);
    }
    if at < p && at + n >= p {
        let k = p - 1 - at;
        assert(s[at + k] == front.last());
        assert(name[k] != '"');
    } else if at < p {
        assert(front.subrange(at, at + n) =~= name);
    } else if at < p + q {
        if at + n > p + q {
            let k = p + q - at;
            assert(s[at + k] == back[0]);
            assert(name[k] != '"');
        } else {
            assert(quoted.subrange(at - p, at - p + n) =~= name);
            assert(occurs_at(quoted, name, at - p));
        }
    } else {
        assert(back.subrange(at - p - q, at - p - q + n) =~= name);
    }
}

proof fn no_name_without_mark(s: Seq<char>, name: Seq<char>, at: int)
    requires
        without_mark(s),
        is_mic_name(name),
    ensures
        !occurs_at(s, name, at),
{
    if occurs_at(s, name, at) {
        let part = s.subrange(at, at + name.len());
        assert(part[8] == '_' && part[9] == 'm');
        assert(s[at + 8] == '_' && s[at + 9] == 'm');
    }
}

/// Without a microphone the drop-in names neither of its loopbacks.
pub proof fn no_loopback_without_a_microphone(desc: Seq<char>)
    requires
        !has_part(desc, MIC_IN_NAME@),
        !has_part(desc, MIC_OUT_NAME@),
    ensures
        !has_part(dropin_text(desc, None), MIC_IN_NAME@),
        !has_part(dropin_text(desc, None), MIC_OUT_NAME@),
{
    head_is_plain();
    to_source_is_plain();
    to_description_is_plain();
    module_end_is_plain();
    end_is_plain();
    names_are_told_apart();
    bridge_in_parts(desc);
    let front = DROPIN_HEAD@ + SINK_NAME@ + DROPIN_TO_SOURCE@ + SOURCE_NAME@
        + DROPIN_TO_DESCRIPTION@;
    let back = DROPIN_MODULE_END@ + DROPIN_END@;
    assert(dropin_text(desc, None) =~= front + desc + back);
    marks_in_two(DROPIN_HEAD@, SINK_NAME@);
    marks_in_two(DROPIN_HEAD@ + SINK_NAME@, DROPIN_TO_SOURCE@);
    marks_in_two(DROPIN_HEAD@ + SINK_NAME@ + DROPIN_TO_SOURCE@, SOURCE_NAME@);
    marks_in_two(
        DROPIN_HEAD@ + SINK_NAME@ + DROPIN_TO_SOURCE@ + SOURCE_NAME@,
        DROPIN_TO_DESCRIPTION@,
    );
    marks_in_two(DROPIN_MODULE_END@, DROPIN_END@);
    assert forall|at: int| !occurs_at(dropin_text(desc, None), MIC_IN_NAME@, at) by {
        no_name_without_mark(front, MIC_IN_NAME@, at);
        no_name_without_mark(back, MIC_IN_NAME@, at - front.len() - desc.len());
        if occurs_at(dropin_text(desc, None), MIC_IN_NAME@, at) {
            found_beside_quotes(front, desc, back, MIC_IN_NAME@, at);
        }
    }
    assert forall|at: int| !occurs_at(dropin_text(desc, None), MIC_OUT_NAME@, at) by {
        no_name_without_mark(front, MIC_OUT_NAME@, at);
        no_name_without_mark(back, MIC_OUT_NAME@, at - front.len() - desc.len());
        if occurs_at(dropin_text(desc, None), MIC_OUT_NAME@, at) {
            found_beside_quotes(front, desc, back, MIC_OUT_NAME@, at);
        }
    }
}

proof fn mic_in_parts(mic: Seq<char>)
    ensures
        mic_text(mic) == DROPIN_MIC@ + MIC_IN_NAME@ + DROPIN_TO_TARGET@ + mic
            + DROPIN_TO_MIC_OUT@ + MIC_OUT_NAME@ + DROPIN_TO_TARGET@ + SINK_NAME@
            + DROPIN_MODULE_END@,
{
    let (a, b, c, d) = (DROPIN_MIC@, MIC_IN_NAME@, DROPIN_TO_TARGET@, mic);
    let (e, f, g) = (DROPIN_TO_MIC_OUT@, MIC_OUT_NAME@, DROPIN_TO_TARGET@);
    let (h, k) = (SINK_NAME@, DROPIN_MODULE_END@);
    reveal_with_fuel(concat, 10);
    assert(seq![a, b, c, d, e, f, g, h, k].drop_last() =~= seq![a, b, c, d, e, f, g, h]);
    assert(seq![a, b, c, d, e, f, g, h].drop_last() =~= seq![a, b, c, d, e, f, g]);
    assert(seq![a, b, c, d, e, f, g].drop_last() =~= seq![a, b, c, d, e, f]);
    assert(seq![a, b, c, d, e, f].drop_last() =~= seq![a, b, c, d, e]);
    assert(seq![a, b, c, d, e].drop_last() =~= seq![a, b, c, d]);
    assert(seq![a, b, c, d].drop_last() =~= seq![a, b, c]);
    assert(seq![a, b, c].drop_last() =~= seq![a, b]);
    assert(seq![a, b].drop_last() =~= seq![a]);
    assert(seq![a].drop_last() =~= Seq::<Seq<char>>::empty());
    assert(Seq::<char>::empty() + a =~= a);
}

proof fn part_between(front: Seq<char>, part: Seq<char>, back: Seq<char>)
    ensures
        has_part(front + part + back, part),
{
    let s = front + part + back;
    let at = front.len() as int;
    assert(s.subrange(at, at + part.len()) =~= part);
    assert(occurs_at(s, part, at));
}

/// The microphone adds one module to the drop-in and changes nothing else. The module
/// has both loopbacks and is pinned to the microphone.
pub proof fn a_microphone_adds_one_module(desc: Seq<char>, mic: Seq<char>)
    ensures
        dropin_text(desc, None) == bridge_text(desc) + "]\n"@,
        dropin_text(desc, Some(mic)) == bridge_text(desc) + mic_text(mic) + "]\n"@,
        mic_text(mic).len() > 0,
        has_part(mic_text(mic), MIC_IN_NAME@),
        has_part(mic_text(mic), MIC_OUT_NAME@),
        has_part(mic_text(mic), "node.target = \""@ + mic + "\""@),
{
    names_are_told_apart();
    mic_in_parts(mic);
    let (a, b, c) = (DROPIN_MIC@, MIC_IN_NAME@, DROPIN_TO_TARGET@);
    let (e, f) = (DROPIN_TO_MIC_OUT@, MIC_OUT_NAME@);
    let rest = DROPIN_TO_TARGET@ + SINK_NAME@ + DROPIN_MODULE_END@;
    let text = mic_text(mic);
    part_between(a, b, c + mic + e + f + rest);
    assert(text =~= a + b + (c + mic + e + f + rest));
    part_between(a + b + c + mic + e, f, rest);
    assert(text =~= (a + b + c + mic + e) + f + rest);
    reveal_strlit("\"
              node.target = \"");
    reveal_strlit("\"
          }
          playback.props = {
              media.class = Stream/Output/Audio
              node.name = \"");
    reveal_strlit("node.target = \"");
    reveal_strlit("\"");
    let key = "node.target = \""@;
    let quote = "\""@;
    let lead = c.take(c.len() - key.len());
    assert(c =~= lead + key);
    assert(e =~= quote + e.skip(1));
    part_between(a + b + lead, key + mic + quote, e.skip(1) + f + rest);
    assert(text =~= (a + b + lead) + (key + mic + quote) + (e.skip(1) + f + rest));
}

/// The device that was chosen in the settings is the microphone, whatever the system's
/// default is: the first node with that description that is not one of the soundboard's
/// own.
pub proof fn the_chosen_microphone_wins(
    configured: Seq<char>,
    nodes: Seq<AudioNode>,
    default_source: Option<Seq<char>>,
    i: int,
)
    requires
        configured.len() > 0,
        0 <= i < nodes.len(),
        nodes[i].description@ == configured,
        !has_prefix(nodes[i].name@, "resonate"@),
        forall|k: int|
            0 <= k < i ==> (#[trigger] nodes[k]).description@ != configured || has_prefix(
                nodes[k].name@,
                "resonate"@,
            ),
    ensures
        physical_mic(configured, nodes, default_source) == Some(nodes[i].name@),
{
    found_first(nodes, is_chosen(configured), i);
}

/// Where no device was chosen, or the chosen one is not there, the system's default is the
/// microphone, unless it is empty or one of the soundboard's own nodes.
pub proof fn without_a_choice_the_default_is_taken(
    configured: Seq<char>,
    nodes: Seq<AudioNode>,
    default_source: Seq<char>,
)
    requires
        configured.len() > 0 ==> forall|k: int|
            0 <= k < nodes.len() ==> (#[trigger] nodes[k]).description@ != configured
                || has_prefix(nodes[k].name@, "resonate"@),
        trimmed(default_source).len() > 0,
        !has_prefix(trimmed(default_source), "resonate"@),
    ensures
        physical_mic(configured, nodes, Some(default_source)) == Some(trimmed(default_source)),
{
    if configured.len() > 0 {
        found_none(nodes, is_chosen(configured));
    }
}

/// With neither, the microphone is the first hardware input, and there is none only if no
/// node is one.
pub proof fn failing_that_the_first_hardware_input_is_taken(
    configured: Seq<char>,
    nodes: Seq<AudioNode>,
    default_source: Option<Seq<char>>,
)
    requires
        configured.len() > 0 ==> forall|k: int|
            0 <= k < nodes.len() ==> (#[trigger] nodes[k]).description@ != configured
                || has_prefix(nodes[k].name@, "resonate"@),
        default_source matches Some(name) ==> trimmed(name).len() == 0 || has_prefix(
            trimmed(name),
            "resonate"@,
        ),
    ensures
        match physical_mic(configured, nodes, default_source) {
            Some(name) => exists|i: int|
                #![trigger nodes[i]]
                {
                    &&& 0 <= i < nodes.len()
                    &&& nodes[i].name@ == name
                    &&& has_part(nodes[i].media_class@, "Source"@)
                    &&& has_prefix(name, "alsa_input"@)
                    &&& forall|k: int|
                        0 <= k < i ==> !(has_part((#[trigger] nodes[k]).media_class@, "Source"@)
                            && has_prefix(nodes[k].name@, "alsa_input"@) && !has_prefix(
                            nodes[k].name@,
                            "resonate"@,
                        ))
                },
            None => forall|k: int|
                0 <= k < nodes.len() ==> !(has_part(
                    (#[trigger] nodes[k]).media_class@,
                    "Source"@,
                ) && has_prefix(nodes[k].name@, "alsa_input"@) && !has_prefix(
                    nodes[k].name@,
                    "resonate"@,
                )),
        },
{
    if configured.len() > 0 {
        found_none(nodes, is_chosen(configured));
    }
    let p = is_capture();
    first_index_holds(nodes, p);
    match first_index(nodes, p) {
        Some(i) => {
            assert(p(nodes[i]));
            assert(physical_mic(configured, nodes, default_source) == Some(nodes[i].name@));
            assert forall|k: int| 0 <= k < i implies !p(#[trigger] nodes[k]) by {}
        },
        None => {
            assert forall|k: int| 0 <= k < nodes.len() implies !p(#[trigger] nodes[k]) by {}
        },
    }
}

/// The bridge is created unless both of its ends are there.
pub proof fn the_bridge_has_two_ends(nodes: Seq<AudioNode>, i: int, j: int)
    requires
        0 <= i < nodes.len(),
        0 <= j < nodes.len(),
    ensures
        nodes[i].name@ == "resonate_sink"@ && nodes[j].name@ == "resonate_source"@
            ==> !needs_bridge(nodes),
        (forall|k: int| 0 <= k < nodes.len() ==> (#[trigger] nodes[k]).name@ != "resonate_sink"@)
            ==> needs_bridge(nodes),
        (forall|k: int| 0 <= k < nodes.len() ==> (#[trigger] nodes[k]).name@ != "resonate_source"@)
            ==> needs_bridge(nodes),
{
}

/// Every node of the loopback that plays the raw microphone is removed, and no other.
pub proof fn only_the_raw_loopback_is_removed(nodes: Seq<AudioNode>) -> (at: Seq<int>)
    ensures
        at.len() == raw_loopbacks(nodes).len(),
        forall|i: int|
            0 <= i < at.len() ==> 0 <= (#[trigger] at[i]) < nodes.len() && raw_loopbacks(nodes)[i]
                == nodes[at[i]].id && (nodes[at[i]].name@ == "resonate_mic_in"@
                || nodes[at[i]].name@ == "resonate_mic_out"@),
        forall|k: int|
            0 <= k < nodes.len() && ((#[trigger] nodes[k]).name@ == "resonate_mic_in"@
                || nodes[k].name@ == "resonate_mic_out"@) ==> at.contains(k),
{
    let at = filter_positions(nodes, is_raw_loopback());
    assert forall|k: int|
        0 <= k < nodes.len() && ((#[trigger] nodes[k]).name@ == "resonate_mic_in"@
            || nodes[k].name@ == "resonate_mic_out"@) implies at.contains(k) by {
        assert(is_raw_loopback()(nodes[k]));
    }
    at
}

/// A drop-in that was written is not written again, and one that says anything else is.
pub proof fn a_written_dropin_is_left_alone(existing: Seq<char>, content: Seq<char>)
    ensures
        is_outdated(Some(existing), content) <==> existing != content,
        is_outdated(None, content),
{
}

/// The bridge has a sink and a source of the soundboard, and is shown by its description.
pub proof fn the_bridge_is_named(source_desc: Seq<char>)
    ensures
        has_part(bridge_module(source_desc), "resonate_sink"@),
        has_part(bridge_module(source_desc), "resonate_source"@),
        has_part(bridge_module(source_desc), source_desc),
{
    let parts = bridge_parts(source_desc);
    parts_are_in_the_text(parts, 1);
    parts_are_in_the_text(parts, 3);
    parts_are_in_the_text(parts, 5);
}

/// The raw microphone is captured from the chosen source and played into the sink of the
/// soundboard.
pub proof fn the_microphone_goes_into_the_sink(mic: Seq<char>)
    ensures
        has_prefix(mic_text(mic), DROPIN_MIC@ + "resonate_mic_in"@ + DROPIN_TO_TARGET@ + mic),
        has_part(mic_text(mic), "resonate_mic_out"@ + DROPIN_TO_TARGET@ + "resonate_sink"@),
{
    let (a, b, c) = (DROPIN_MIC@, MIC_IN_NAME@, DROPIN_TO_TARGET@);
    let (d, e, f, g) = (DROPIN_TO_MIC_OUT@, MIC_OUT_NAME@, SINK_NAME@, DROPIN_MODULE_END@);
    reveal_with_fuel(concat, 10);
    assert(seq![a, b, c, mic, d, e, c, f, g].drop_last() =~= seq![a, b, c, mic, d, e, c, f]);
    assert(seq![a, b, c, mic, d, e, c, f].drop_last() =~= seq![a, b, c, mic, d, e, c]);
    assert(seq![a, b, c, mic, d, e, c].drop_last() =~= seq![a, b, c, mic, d, e]);
    assert(seq![a, b, c, mic, d, e].drop_last() =~= seq![a, b, c, mic, d]);
    assert(seq![a, b, c, mic, d].drop_last() =~= seq![a, b, c, mic]);
    assert(seq![a, b, c, mic].drop_last() =~= seq![a, b, c]);
    assert(seq![a, b, c].drop_last() =~= seq![a, b]);
    assert(seq![a, b].drop_last() =~= seq![a]);
    assert(seq![a].drop_last() =~= Seq::<Seq<char>>::empty());
    assert(Seq::<char>::empty() + a =~= a);
    let all = mic_text(mic);
    let lead = a + b + c + mic;
    assert(all =~= lead + d + e + c + f + g);
    assert(all.take(lead.len() as int) =~= lead);
    let (part, at) = (e + c + f, (lead + d).len() as int);
    assert(all.subrange(at, at + part.len()) =~= part);
    assert(occurs_at(all, part, at));
}

/// A claim captures from the physical microphone and pins the drop-in to it, and creates
/// the bridge where an end of it is missing.
pub proof fn a_claim_follows_the_microphone(
    source_desc: Seq<char>,
    configured: Seq<char>,
    nodes: Seq<AudioNode>,
    default_source: Option<Seq<char>>,
    r: RoutingPlan,
)
    requires
        is_claim(source_desc, configured, nodes, default_source, r),
    ensures
        r.mic_target is Some <==> physical_mic(configured, nodes, default_source) is Some,
        r.mic_target is Some ==> Some(r.mic_target->0@) == physical_mic(
            configured,
            nodes,
            default_source,
        ) && r.dropin@ == bridge_text(source_desc) + mic_text(r.mic_target->0@) + DROPIN_END@,
        r.mic_target is None ==> r.dropin@ == bridge_text(source_desc) + DROPIN_END@,
        r.mic_target is Some ==> !is_ours(r.mic_target->0@),
        r.create_bridge <==> needs_bridge(nodes),
{
    no_feedback(configured, nodes, default_source);
}

} // verus!
