//! Audio endpoints as Kaiser sees them, and the decisions made about them:
//! which endpoint is a default for which role, which endpoints a profile's
//! audio rule selects, and the changes a profile asks for. Talking to the
//! audio system is the application's part.

use vstd::prelude::*;
use crate::text::{contains_text, text_contains, to_lowercase, unicode_lowercase};

verus! {

/// The direction of an endpoint: playback or recording.
#[derive(Clone, Copy, Debug, PartialEq, Eq, Structural)]
pub enum AudioFlow {
    Render,
    Capture,
}

/// The ids of the default endpoints the system reported, per flow and role;
/// `None` where there is none.
pub struct DefaultEndpoints {
    pub render_console: Option<String>,
    pub render_comms: Option<String>,
    pub capture_console: Option<String>,
    pub capture_comms: Option<String>,
}

/// An audio endpoint with everything Kaiser decides on (its volume level is
/// kept by the application).
pub struct AudioEndpoint {
    pub id: String,
    pub name: String,
    pub flow: AudioFlow,
    pub enabled: bool,
    pub muted: bool,
    pub is_default_console: bool,
    pub is_default_comms: bool,
}

/// A profile's audio rule: the endpoints whose name contains `pattern`
/// (ignoring case) get the listed changes.
pub struct AudioRule {
    pub pattern: String,
    pub flow: AudioFlow,
    pub set_default: Option<bool>,
    pub has_volume: bool,
    pub muted: Option<bool>,
}

/// One change to make to an endpoint. `SetVolume` applies the volume of the
/// rule at index `rule`.
#[derive(Clone, Copy, Debug, PartialEq, Eq, Structural)]
pub enum AudioAction {
    SetVolume { device: usize, rule: usize },
    SetMute { device: usize, muted: bool },
    SetDefault { device: usize },
}

pub open spec fn is_id(d: Option<String>, id: Seq<char>) -> bool {
    match d {
        Some(s) => s@ == id,
        None => false,
    }
}

/// Whether the endpoint `id` of the given flow is the default console
/// endpoint and the default communications endpoint of that flow.
pub open spec fn spec_default_roles(flow: AudioFlow, id: Seq<char>, defaults: DefaultEndpoints) -> (bool, bool) {
    match flow {
        AudioFlow::Render => (is_id(defaults.render_console, id), is_id(defaults.render_comms, id)),
        AudioFlow::Capture => (is_id(defaults.capture_console, id), is_id(defaults.capture_comms, id)),
    }
}

fn same_id(d: &Option<String>, id: &String) -> (r: bool)
    ensures
        r == is_id(*d, id@),
{
    match d {
        Some(s) => *s == *id,
        None => false,
    }
}

/// The default roles of an endpoint: (console, communications).
pub fn default_roles(flow: AudioFlow, id: &String, defaults: &DefaultEndpoints) -> (r: (bool, bool))
    ensures
        r == spec_default_roles(flow, id@, *defaults),
{
    match flow {
        AudioFlow::Render => (same_id(&defaults.render_console, id), same_id(&defaults.render_comms, id)),
        AudioFlow::Capture => (same_id(&defaults.capture_console, id), same_id(&defaults.capture_comms, id)),
    }
}

/// An endpoint's name contains the pattern, both lowercased.
pub open spec fn name_matches(name: Seq<char>, pattern: Seq<char>) -> bool {
    contains_text(unicode_lowercase(name), unicode_lowercase(pattern))
}

/// Whether a rule selects an endpoint: by name, and by flow where `flow` is given.
pub open spec fn rule_selects(d: AudioEndpoint, pattern: Seq<char>, flow: Option<AudioFlow>) -> bool {
    name_matches(d.name@, pattern) && match flow {
        Some(f) => d.flow == f,
        None => true,
    }
}

/// The indices of the endpoints a rule selects, in order.
pub open spec fn selected_indices(devices: Seq<AudioEndpoint>, pattern: Seq<char>, flow: Option<AudioFlow>) -> Seq<usize>
    decreases devices.len(),
{
    if devices.len() == 0 {
        Seq::empty()
    } else {
        let prev = selected_indices(devices.drop_last(), pattern, flow);
        if rule_selects(devices.last(), pattern, flow) {
            prev.push((devices.len() - 1) as usize)
        } else {
            prev
        }
    }
}

/// Whether the endpoint's name contains the pattern, ignoring case.
pub fn name_matches_pattern(name: &str, pattern: &str) -> (r: bool)
    ensures
        r == name_matches(name@, pattern@),
{
    let n = to_lowercase(name);
    let p = to_lowercase(pattern);
    text_contains(n.as_str(), p.as_str())
}

/// The endpoints (by index) whose name contains `pattern`, ignoring case, and
/// whose flow is `flow` where one is given.
pub fn matching_devices(devices: &Vec<AudioEndpoint>, pattern: &str, flow: Option<AudioFlow>) -> (r: Vec<usize>)
    ensures
        r@ == selected_indices(devices@, pattern@, flow),
{
    let mut r: Vec<usize> = Vec::new();
    let mut i: usize = 0;
    while i < devices.len()
        invariant
            0 <= i <= devices@.len(),
            r@ == selected_indices(devices@.take(i as int), pattern@, flow),
        decreases devices@.len() - i,
    {
        let d = &devices[i];
        assert(devices@.take(i + 1).drop_last() =~= devices@.take(i as int));
        let by_name = name_matches_pattern(d.name.as_str(), pattern);
        let by_flow = match flow {
            Some(f) => d.flow == f,
            None => true,
        };
        if by_name && by_flow {
            r.push(i);
        }
        i = i + 1;
    }
    assert(devices@.take(devices@.len() as int) =~= devices@);
    r
}

/// The changes one rule asks for on one endpoint: volume, then mute, then
/// default, each where the rule sets it.
pub open spec fn device_actions(rule: AudioRule, rule_index: usize, device: usize) -> Seq<AudioAction> {
    (if rule.has_volume { seq![AudioAction::SetVolume { device, rule: rule_index }] } else { Seq::empty() })
        + (match rule.muted {
            Some(m) => seq![AudioAction::SetMute { device, muted: m }],
            None => Seq::empty(),
        })
        + (if rule.set_default == Some(true) { seq![AudioAction::SetDefault { device }] } else { Seq::empty() })
}

pub open spec fn rule_actions(rule: AudioRule, rule_index: usize, devices: Seq<usize>) -> Seq<AudioAction>
    decreases devices.len(),
{
    if devices.len() == 0 {
        Seq::empty()
    } else {
        rule_actions(rule, rule_index, devices.drop_last()) + device_actions(rule, rule_index, devices.last())
    }
}

/// The flow a rule is matched with: its own where flows are respected.
pub open spec fn rule_flow(rule: AudioRule, respect_flow: bool) -> Option<AudioFlow> {
    if respect_flow { Some(rule.flow) } else { None }
}

/// All changes, rule by rule, each rule's endpoints in order.
pub open spec fn spec_plan_audio(devices: Seq<AudioEndpoint>, rules: Seq<AudioRule>, respect_flow: bool) -> Seq<AudioAction>
    decreases rules.len(),
{
    if rules.len() == 0 {
        Seq::empty()
    } else {
        let k = rules.len() - 1;
        let rule = rules.last();
        spec_plan_audio(devices, rules.drop_last(), respect_flow) + rule_actions(
            rule,
            k as usize,
            selected_indices(devices, rule.pattern@, rule_flow(rule, respect_flow)),
        )
    }
}

fn push_device_actions(out: &mut Vec<AudioAction>, rule: &AudioRule, rule_index: usize, device: usize)
    ensures
        final(out)@ == old(out)@ + device_actions(*rule, rule_index, device),
{
    let ghost before = out@;
    if rule.has_volume {
        out.push(AudioAction::SetVolume { device, rule: rule_index });
    }
    let ghost mid1 = out@;
    match rule.muted {
        Some(m) => {
            out.push(AudioAction::SetMute { device, muted: m });
        },
        None => {},
    }
    let ghost mid2 = out@;
    if rule.set_default == Some(true) {
        out.push(AudioAction::SetDefault { device });
    }
    proof {
        let a = if rule.has_volume { seq![AudioAction::SetVolume { device, rule: rule_index }] } else { Seq::empty() };
        let b = match rule.muted {
            Some(m) => seq![AudioAction::SetMute { device, muted: m }],
            None => Seq::<AudioAction>::empty(),
        };
        let c = if rule.set_default == Some(true) { seq![AudioAction::SetDefault { device }] } else { Seq::empty() };
        assert(mid1 =~= before + a);
        assert(mid2 =~= mid1 + b);
        assert(out@ =~= mid2 + c);
        assert(out@ =~= before + (a + b + c));
    }
}

/// The changes that a profile's audio rules ask for on the given endpoints,
/// in the order they are made. With `respect_flow` a rule selects only
/// endpoints of its own flow; without it, endpoints of both flows.
pub fn plan_audio_actions(devices: &Vec<AudioEndpoint>, rules: &Vec<AudioRule>, respect_flow: bool) -> (r: Vec<AudioAction>)
    ensures
        r@ == spec_plan_audio(devices@, rules@, respect_flow),
{
    let mut out: Vec<AudioAction> = Vec::new();
    let mut k: usize = 0;
    while k < rules.len()
        invariant
            0 <= k <= rules@.len(),
            out@ == spec_plan_audio(devices@, rules@.take(k as int), respect_flow),
        decreases rules@.len() - k,
    {
        let rule = &rules[k];
        assert(rules@.take(k + 1).drop_last() =~= rules@.take(k as int));
        let flow = if respect_flow { Some(rule.flow) } else { None };
        let selected = matching_devices(devices, rule.pattern.as_str(), flow);
        let ghost base = out@;
        let mut j: usize = 0;
        while j < selected.len()
            invariant
                0 <= j <= selected@.len(),
                out@ == base + rule_actions(*rule, k, selected@.take(j as int)),
            decreases selected@.len() - j,
        {
            assert(selected@.take(j + 1).drop_last() =~= selected@.take(j as int));
            push_device_actions(&mut out, rule, k, selected[j]);
            assert(out@ =~= base + rule_actions(*rule, k, selected@.take(j + 1)));
            j = j + 1;
        }
        assert(selected@.take(selected@.len() as int) =~= selected@);
        k = k + 1;
    }
    assert(rules@.take(rules@.len() as int) =~= rules@);
    out
}

/// The indices of the endpoints that are the default console endpoint of
/// their flow, in order.
pub open spec fn default_console_indices(devices: Seq<AudioEndpoint>) -> Seq<usize>
    decreases devices.len(),
{
    if devices.len() == 0 {
        Seq::empty()
    } else {
        let prev = default_console_indices(devices.drop_last());
        if devices.last().is_default_console {
            prev.push((devices.len() - 1) as usize)
        } else {
            prev
        }
    }
}

/// The endpoints (by index) that are the default console endpoint of their
/// flow: what a profile remembers of the audio setup when it is saved.
pub fn default_console_devices(devices: &Vec<AudioEndpoint>) -> (r: Vec<usize>)
    ensures
        r@ == default_console_indices(devices@),
{
    let mut r: Vec<usize> = Vec::new();
    let mut i: usize = 0;
    while i < devices.len()
        invariant
            0 <= i <= devices@.len(),
            r@ == default_console_indices(devices@.take(i as int)),
        decreases devices@.len() - i,
    {
        assert(devices@.take(i + 1).drop_last() =~= devices@.take(i as int));
        if devices[i].is_default_console {
            r.push(i);
        }
        i = i + 1;
    }
    assert(devices@.take(devices@.len() as int) =~= devices@);
    r
}


/// Rule `r` reaches endpoint `d`: the endpoint's name contains the rule's
/// pattern, both lowercased, and with flows respected the flows agree.
pub open spec fn reaches(devices: Seq<AudioEndpoint>, rules: Seq<AudioRule>, respect_flow: bool, r: int, d: int) -> bool {
    &&& 0 <= d < devices.len()
    &&& 0 <= r < rules.len()
    &&& contains_text(unicode_lowercase(devices[d].name@), unicode_lowercase(rules[r].pattern@))
    &&& (respect_flow ==> devices[d].flow == rules[r].flow)
}

/// An action that a rule asks for: a volume change names a rule that has a
/// volume and reaches the endpoint; a mute change and a default change come
/// from a rule that reaches the endpoint and asks for them.
pub open spec fn action_justified(devices: Seq<AudioEndpoint>, rules: Seq<AudioRule>, respect_flow: bool, a: AudioAction) -> bool {
    match a {
        AudioAction::SetVolume { device, rule } => reaches(devices, rules, respect_flow, rule as int, device as int)
            && rules[rule as int].has_volume,
        AudioAction::SetMute { device, muted } => exists|r: int|
            reaches(devices, rules, respect_flow, r, device as int) && #[trigger] rules[r].muted == Some(muted),
        AudioAction::SetDefault { device } => exists|r: int|
            reaches(devices, rules, respect_flow, r, device as int) && #[trigger] rules[r].set_default == Some(true),
    }
}

proof fn lemma_selected(devices: Seq<AudioEndpoint>, pattern: Seq<char>, flow: Option<AudioFlow>)
    requires
        devices.len() <= usize::MAX,
    ensures
        forall|k: int| 0 <= k < selected_indices(devices, pattern, flow).len() ==> {
            let d = #[trigger] selected_indices(devices, pattern, flow)[k];
            &&& d < devices.len()
            &&& rule_selects(devices[d as int], pattern, flow)
        },
    decreases devices.len(),
{
    if devices.len() > 0 {
        let prev = devices.drop_last();
        lemma_selected(prev, pattern, flow);
        let s = selected_indices(devices, pattern, flow);
        let sp = selected_indices(prev, pattern, flow);
        assert forall|k: int| 0 <= k < s.len() implies {
            let d = #[trigger] s[k];
            &&& d < devices.len()
            &&& rule_selects(devices[d as int], pattern, flow)
        } by {
            if k < sp.len() {
                assert(s[k] == sp[k]);
                assert(devices[sp[k] as int] == prev[sp[k] as int]);
            } else {
                assert(rule_selects(devices.last(), pattern, flow));
                assert(s[k] == (devices.len() - 1) as usize);
            }
        }
    }
}

/// What a rule's actions on the given endpoints are made of.
pub open spec fn from_rule(rule: AudioRule, rule_index: usize, sel: Seq<usize>, a: AudioAction) -> bool {
    match a {
        AudioAction::SetVolume { device, rule: r } => r == rule_index && rule.has_volume && sel.contains(device),
        AudioAction::SetMute { device, muted } => rule.muted == Some(muted) && sel.contains(device),
        AudioAction::SetDefault { device } => rule.set_default == Some(true) && sel.contains(device),
    }
}

proof fn lemma_rule_actions(rule: AudioRule, rule_index: usize, sel: Seq<usize>)
    ensures
        forall|k: int| 0 <= k < rule_actions(rule, rule_index, sel).len() ==> from_rule(rule, rule_index, sel, #[trigger] rule_actions(rule, rule_index, sel)[k]),
    decreases sel.len(),
{
    if sel.len() > 0 {
        let prev = sel.drop_last();
        lemma_rule_actions(rule, rule_index, prev);
        let ra = rule_actions(rule, rule_index, sel);
        let rp = rule_actions(rule, rule_index, prev);
        let d = sel.last();
        let da = device_actions(rule, rule_index, d);
        assert(ra == rp + da);
        assert(sel[sel.len() - 1] == d);
        assert forall|k: int| 0 <= k < ra.len() implies from_rule(rule, rule_index, sel, #[trigger] ra[k]) by {
            if k < rp.len() {
                assert(ra[k] == rp[k]);
                assert(from_rule(rule, rule_index, prev, rp[k]));
                match rp[k] {
                    AudioAction::SetVolume { device, rule: r } => {
                        let j = choose|j: int| 0 <= j < prev.len() && prev[j] == device;
                        assert(sel[j] == prev[j]);
                    },
                    AudioAction::SetMute { device, muted } => {
                        let j = choose|j: int| 0 <= j < prev.len() && prev[j] == device;
                        assert(sel[j] == prev[j]);
                    },
                    AudioAction::SetDefault { device } => {
                        let j = choose|j: int| 0 <= j < prev.len() && prev[j] == device;
                        assert(sel[j] == prev[j]);
                    },
                }
            } else {
                assert(ra[k] == da[k - rp.len()]);
            }
        }
    }
}

/// Every change in an audio plan is asked for by a rule that reaches its
/// endpoint; in particular the volume set on an endpoint is that of a rule
/// reaching it that has a volume.
pub proof fn lemma_audio_plan_justified(devices: Seq<AudioEndpoint>, rules: Seq<AudioRule>, respect_flow: bool)
    requires
        devices.len() <= usize::MAX,
        rules.len() <= usize::MAX,
    ensures
        forall|k: int| 0 <= k < spec_plan_audio(devices, rules, respect_flow).len()
            ==> action_justified(devices, rules, respect_flow, #[trigger] spec_plan_audio(devices, rules, respect_flow)[k]),
    decreases rules.len(),
{
    if rules.len() > 0 {
        let prev_rules = rules.drop_last();
        lemma_audio_plan_justified(devices, prev_rules, respect_flow);
        let ri = rules.len() - 1;
        let rule = rules.last();
        let sel = selected_indices(devices, rule.pattern@, rule_flow(rule, respect_flow));
        lemma_selected(devices, rule.pattern@, rule_flow(rule, respect_flow));
        lemma_rule_actions(rule, ri as usize, sel);
        let plan = spec_plan_audio(devices, rules, respect_flow);
        let pp = spec_plan_audio(devices, prev_rules, respect_flow);
        let ra = rule_actions(rule, ri as usize, sel);
        assert(plan == pp + ra);
        assert(rules[ri] == rule);
        assert forall|k: int| 0 <= k < plan.len() implies action_justified(devices, rules, respect_flow, #[trigger] plan[k]) by {
            if k < pp.len() {
                assert(plan[k] == pp[k]);
                assert(action_justified(devices, prev_rules, respect_flow, pp[k]));
                match pp[k] {
                    AudioAction::SetVolume { device, rule: r } => {
                        assert(rules[r as int] == prev_rules[r as int]);
                    },
                    AudioAction::SetMute { device, muted } => {
                        let r = choose|r: int| reaches(devices, prev_rules, respect_flow, r, device as int) && #[trigger] prev_rules[r].muted == Some(muted);
                        assert(rules[r] == prev_rules[r]);
                        assert(reaches(devices, rules, respect_flow, r, device as int));
                    },
                    AudioAction::SetDefault { device } => {
                        let r = choose|r: int| reaches(devices, prev_rules, respect_flow, r, device as int) && #[trigger] prev_rules[r].set_default == Some(true);
                        assert(rules[r] == prev_rules[r]);
                        assert(reaches(devices, rules, respect_flow, r, device as int));
                    },
                }
            } else {
                let a = ra[k - pp.len()];
                assert(plan[k] == a);
                assert(from_rule(rule, ri as usize, sel, a));
                match a {
                    AudioAction::SetVolume { device, rule: r } => {
                        let j = choose|j: int| 0 <= j < sel.len() && sel[j] == device;
                        assert(rule_selects(devices[sel[j] as int], rule.pattern@, rule_flow(rule, respect_flow)));
                        assert(reaches(devices, rules, respect_flow, ri, device as int));
                    },
                    AudioAction::SetMute { device, muted } => {
                        let j = choose|j: int| 0 <= j < sel.len() && sel[j] == device;
                        assert(rule_selects(devices[sel[j] as int], rule.pattern@, rule_flow(rule, respect_flow)));
                        assert(reaches(devices, rules, respect_flow, ri, device as int));
                        assert(rules[ri].muted == Some(muted));
                    },
                    AudioAction::SetDefault { device } => {
                        let j = choose|j: int| 0 <= j < sel.len() && sel[j] == device;
                        assert(rule_selects(devices[sel[j] as int], rule.pattern@, rule_flow(rule, respect_flow)));
                        assert(reaches(devices, rules, respect_flow, ri, device as int));
                        assert(rules[ri].set_default == Some(true));
                    },
                }
            }
        }
    }
}

} // verus!
