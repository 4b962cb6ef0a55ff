//! Global-shortcut configuration: the fixed set of bindable actions, their
//! defaults, validation of user-supplied key chords, and the JSON form in
//! which the table is kept in the settings store.

use vstd::prelude::*;

use crate::codec::spec_lookup;
use crate::json::{
    decode_json, encode_json, jsonv_of, jsonv_of_list, jsonv_of_pairs, lemma_jsonv_of_list,
    lemma_jsonv_of_pairs, print_json, sp_json, Json, JsonV,
};
use crate::text::contains_seq;

verus! {

/// An action a global shortcut can trigger.
#[derive(Debug, Clone, PartialEq, Eq, Structural)]
pub enum ShortcutAction {
    ToggleWindow,
    NewConversation,
    OpenSettings,
    QuickCapture,
    FocusInput,
}

impl ShortcutAction {
    pub fn display_name(&self) -> (r: &'static str)
        ensures
            r@ == spec_display_name(*self),
    {
        match self {
            ShortcutAction::ToggleWindow => "Toggle Window",
            ShortcutAction::NewConversation => "New Conversation",
            ShortcutAction::OpenSettings => "Open Settings",
            ShortcutAction::QuickCapture => "Quick Capture",
            ShortcutAction::FocusInput => "Focus Input",
        }
    }

    pub fn description(&self) -> (r: &'static str)
        ensures
            r@ == spec_description(*self),
    {
        match self {
            ShortcutAction::ToggleWindow => "Show/hide the main application window",
            ShortcutAction::NewConversation => "Create a new conversation",
            ShortcutAction::OpenSettings => "Open the settings panel",
            ShortcutAction::QuickCapture => "Quick capture input without showing window",
            ShortcutAction::FocusInput => "Focus the chat input field",
        }
    }

    pub fn default_shortcut(&self) -> (r: &'static str)
        ensures
            r@ == spec_default_shortcut(*self),
    {
        match self {
            ShortcutAction::ToggleWindow => "CommandOrControl+Space",
            ShortcutAction::NewConversation => "CommandOrControl+N",
            ShortcutAction::OpenSettings => "CommandOrControl+Comma",
            ShortcutAction::QuickCapture => "CommandOrControl+Shift+Space",
            ShortcutAction::FocusInput => "CommandOrControl+Shift+I",
        }
    }

    /// Every bindable action, once each, in presentation order.
    pub fn all_actions() -> (r: Vec<ShortcutAction>)
        ensures
            r@ == seq![
                ShortcutAction::ToggleWindow,
                ShortcutAction::NewConversation,
                ShortcutAction::OpenSettings,
                ShortcutAction::QuickCapture,
                ShortcutAction::FocusInput,
            ],
    {
        let mut v: Vec<ShortcutAction> = Vec::new();
        v.push(ShortcutAction::ToggleWindow);
        v.push(ShortcutAction::NewConversation);
        v.push(ShortcutAction::OpenSettings);
        v.push(ShortcutAction::QuickCapture);
        v.push(ShortcutAction::FocusInput);
        proof {
            assert(v@ =~= seq![
                ShortcutAction::ToggleWindow,
                ShortcutAction::NewConversation,
                ShortcutAction::OpenSettings,
                ShortcutAction::QuickCapture,
                ShortcutAction::FocusInput,
            ]);
        }
        v
    }
}

pub open spec fn spec_display_name(a: ShortcutAction) -> Seq<char> {
    match a {
        ShortcutAction::ToggleWindow => "Toggle Window"@,
        ShortcutAction::NewConversation => "New Conversation"@,
        ShortcutAction::OpenSettings => "Open Settings"@,
        ShortcutAction::QuickCapture => "Quick Capture"@,
        ShortcutAction::FocusInput => "Focus Input"@,
    }
}

pub open spec fn spec_description(a: ShortcutAction) -> Seq<char> {
    match a {
        ShortcutAction::ToggleWindow => "Show/hide the main application window"@,
        ShortcutAction::NewConversation => "Create a new conversation"@,
        ShortcutAction::OpenSettings => "Open the settings panel"@,
        ShortcutAction::QuickCapture => "Quick capture input without showing window"@,
        ShortcutAction::FocusInput => "Focus the chat input field"@,
    }
}

pub open spec fn spec_default_shortcut(a: ShortcutAction) -> Seq<char> {
    match a {
        ShortcutAction::ToggleWindow => "CommandOrControl+Space"@,
        ShortcutAction::NewConversation => "CommandOrControl+N"@,
        ShortcutAction::OpenSettings => "CommandOrControl+Comma"@,
        ShortcutAction::QuickCapture => "CommandOrControl+Shift+Space"@,
        ShortcutAction::FocusInput => "CommandOrControl+Shift+I"@,
    }
}

/// One binding: an action, its key chord, and whether it is active.
#[derive(Debug)]
pub struct GlobalShortcut {
    pub action: ShortcutAction,
    pub shortcut: String,
    pub enabled: bool,
}

/// The model of a [`GlobalShortcut`].
pub ghost struct GlobalShortcutV {
    pub action: ShortcutAction,
    pub shortcut: Seq<char>,
    pub enabled: bool,
}

impl View for GlobalShortcut {
    type V = GlobalShortcutV;

    open spec fn view(&self) -> GlobalShortcutV {
        GlobalShortcutV { action: self.action, shortcut: self.shortcut@, enabled: self.enabled }
    }
}

/// The models of a sequence of bindings.
pub open spec fn binding_views(s: Seq<GlobalShortcut>) -> Seq<GlobalShortcutV> {
    s.map_values(|b: GlobalShortcut| b@)
}

/// The full shortcut table.
#[derive(Debug)]
pub struct ShortcutConfig {
    pub shortcuts: Vec<GlobalShortcut>,
}

/// The model of a [`ShortcutConfig`].
pub ghost struct ShortcutConfigV {
    pub shortcuts: Seq<GlobalShortcutV>,
}

impl View for ShortcutConfig {
    type V = ShortcutConfigV;

    open spec fn view(&self) -> ShortcutConfigV {
        ShortcutConfigV { shortcuts: binding_views(self.shortcuts@) }
    }
}

impl Default for ShortcutConfig {
    /// The out-of-the-box table: every action bound to its default chord,
    /// with only the window toggle enabled.
    fn default() -> (r: Self)
        ensures
            r.shortcuts@.len() == 5,
            forall|i: int|
                0 <= i < 5 ==> (#[trigger] r.shortcuts@[i]).action
                    == ShortcutAction::all_actions_spec()[i],
            forall|i: int|
                0 <= i < 5 ==> (#[trigger] r.shortcuts@[i]).shortcut@ == spec_default_shortcut(
                    r.shortcuts@[i].action,
                ),
            forall|i: int|
                0 <= i < 5 ==> ((#[trigger] r.shortcuts@[i]).enabled <==> r.shortcuts@[i].action
                    == ShortcutAction::ToggleWindow),
    {
        let mut shortcuts: Vec<GlobalShortcut> = Vec::new();
        shortcuts.push(
            GlobalShortcut {
                action: ShortcutAction::ToggleWindow,
                shortcut: String::from_str("CommandOrControl+Space"),
                enabled: true,
            },
        );
        shortcuts.push(
            GlobalShortcut {
                action: ShortcutAction::NewConversation,
                shortcut: String::from_str("CommandOrControl+N"),
                enabled: false,
            },
        );
        shortcuts.push(
            GlobalShortcut {
                action: ShortcutAction::OpenSettings,
                shortcut: String::from_str("CommandOrControl+Comma"),
                enabled: false,
            },
        );
        shortcuts.push(
            GlobalShortcut {
                action: ShortcutAction::QuickCapture,
                shortcut: String::from_str("CommandOrControl+Shift+Space"),
                enabled: false,
            },
        );
        shortcuts.push(
            GlobalShortcut {
                action: ShortcutAction::FocusInput,
                shortcut: String::from_str("CommandOrControl+Shift+I"),
                enabled: false,
            },
        );
        ShortcutConfig { shortcuts }
    }
}

impl ShortcutAction {
    /// The spec-level list behind [`ShortcutAction::all_actions`].
    pub open spec fn all_actions_spec() -> Seq<ShortcutAction> {
        seq![
            ShortcutAction::ToggleWindow,
            ShortcutAction::NewConversation,
            ShortcutAction::OpenSettings,
            ShortcutAction::QuickCapture,
            ShortcutAction::FocusInput,
        ]
    }
}

/// A chord is acceptable when it is not all whitespace and names both a
/// modifier and a key.
pub open spec fn shortcut_acceptable(s: Seq<char>) -> bool {
    &&& !(forall|i: int| 0 <= i < s.len() ==> crate::json::is_ws(#[trigger] s[i]))
    &&& (contains_seq(s, "Command"@) || contains_seq(s, "Control"@) || contains_seq(s, "Ctrl"@)
        || contains_seq(s, "Alt"@) || contains_seq(s, "Shift"@))
    &&& contains_seq(s, "+"@)
}

/// Checks a user-supplied chord: all-whitespace chords and chords without
/// a modifier plus key are refused with a message.
#[verifier::loop_isolation(false)]
pub fn validate_shortcut(shortcut: &str) -> (r: Result<bool, String>)
    ensures
        match r {
            Ok(b) => b && shortcut_acceptable(shortcut@),
            Err(e) => !shortcut_acceptable(shortcut@) && (e@ == "Shortcut cannot be empty"@ || e@
                == "Shortcut must include a modifier key (CommandOrControl, Alt, Shift) and a main key"@),
        },
{
    let cs = crate::ext::str_to_chars(shortcut);
    let n = cs.len();
    let mut i: usize = 0;
    let mut all_ws = true;
    while i < n
        invariant
            i <= n,
            all_ws <==> (forall|k: int| 0 <= k < i ==> crate::json::is_ws(#[trigger] cs@[k])),
        decreases n - i,
    {
        let c = cs[i];
        if !(c == ' ' || c == '\t' || c == '\n' || c == '\r') {
            all_ws = false;
        }
        i = i + 1;
    }
    if all_ws {
        return Err(String::from_str("Shortcut cannot be empty"));
    }
    let has_modifier = crate::text::str_contains(shortcut, "Command") || crate::text::str_contains(
        shortcut,
        "Control",
    ) || crate::text::str_contains(shortcut, "Ctrl") || crate::text::str_contains(shortcut, "Alt")
        || crate::text::str_contains(shortcut, "Shift");
    let has_plus = crate::text::str_contains(shortcut, "+");
    if !has_modifier || !has_plus {
        return Err(
            String::from_str(
                "Shortcut must include a modifier key (CommandOrControl, Alt, Shift) and a main key",
            ),
        );
    }
    Ok(true)
}

/// The tag under which an action is written in the stored table.
pub open spec fn action_name(a: ShortcutAction) -> Seq<char> {
    match a {
        ShortcutAction::ToggleWindow => "ToggleWindow"@,
        ShortcutAction::NewConversation => "NewConversation"@,
        ShortcutAction::OpenSettings => "OpenSettings"@,
        ShortcutAction::QuickCapture => "QuickCapture"@,
        ShortcutAction::FocusInput => "FocusInput"@,
    }
}

/// The action a stored tag names, if any.
pub open spec fn action_of_name(s: Seq<char>) -> Option<ShortcutAction> {
    if s == "ToggleWindow"@ {
        Some(ShortcutAction::ToggleWindow)
    } else if s == "NewConversation"@ {
        Some(ShortcutAction::NewConversation)
    } else if s == "OpenSettings"@ {
        Some(ShortcutAction::OpenSettings)
    } else if s == "QuickCapture"@ {
        Some(ShortcutAction::QuickCapture)
    } else if s == "FocusInput"@ {
        Some(ShortcutAction::FocusInput)
    } else {
        None
    }
}

fn action_name_x(a: &ShortcutAction) -> (r: &'static str)
    ensures
        r@ == action_name(*a),
{
    match a {
        ShortcutAction::ToggleWindow => "ToggleWindow",
        ShortcutAction::NewConversation => "NewConversation",
        ShortcutAction::OpenSettings => "OpenSettings",
        ShortcutAction::QuickCapture => "QuickCapture",
        ShortcutAction::FocusInput => "FocusInput",
    }
}

fn action_of_name_x(s: &str) -> (r: Option<ShortcutAction>)
    ensures
        r == action_of_name(s@),
{
    if crate::store::str_eq(s, "ToggleWindow") {
        Some(ShortcutAction::ToggleWindow)
    } else if crate::store::str_eq(s, "NewConversation") {
        Some(ShortcutAction::NewConversation)
    } else if crate::store::str_eq(s, "OpenSettings") {
        Some(ShortcutAction::OpenSettings)
    } else if crate::store::str_eq(s, "QuickCapture") {
        Some(ShortcutAction::QuickCapture)
    } else if crate::store::str_eq(s, "FocusInput") {
        Some(ShortcutAction::FocusInput)
    } else {
        None
    }
}

/// The JSON object one binding is written as.
pub open spec fn binding_jsonv(b: GlobalShortcutV) -> JsonV {
    JsonV::Obj(
        seq![
            ("action"@, JsonV::Str(action_name(b.action))),
            ("shortcut"@, JsonV::Str(b.shortcut)),
            ("enabled"@, JsonV::Bool(b.enabled)),
        ],
    )
}

/// The JSON values of a sequence of bindings.
pub open spec fn bindings_jsonv(s: Seq<GlobalShortcutV>) -> Seq<JsonV> {
    s.map_values(|b: GlobalShortcutV| binding_jsonv(b))
}

/// The JSON object the whole table is written as.
pub open spec fn config_jsonv(c: ShortcutConfigV) -> JsonV {
    JsonV::Obj(seq![("shortcuts"@, JsonV::Arr(bindings_jsonv(c.shortcuts)))])
}

fn binding_to_json(b: &GlobalShortcut) -> (r: Json)
    ensures
        jsonv_of(r) == binding_jsonv(b@),
{
    let mut pairs: Vec<(String, Json)> = Vec::new();
    pairs.push((String::from_str("action"), Json::Str(String::from_str(action_name_x(&b.action)))));
    pairs.push((String::from_str("shortcut"), Json::Str(b.shortcut.clone())));
    pairs.push((String::from_str("enabled"), Json::Bool(b.enabled)));
    proof {
        lemma_jsonv_of_pairs(pairs@);
        assert forall|t: int| 0 <= t < 3 implies #[trigger] jsonv_of_pairs(pairs@)[t]
            == binding_jsonv(b@)->Obj_0[t] by {
            assert(jsonv_of_pairs(pairs@)[t] == (pairs@[t].0@, jsonv_of(pairs@[t].1)));
        }
        assert(jsonv_of_pairs(pairs@) =~= binding_jsonv(b@)->Obj_0);
    }
    Json::Obj(pairs)
}

/// Writes the shortcut table as one JSON object, the form kept in the
/// settings store.
#[verifier::loop_isolation(false)]
pub fn encode_shortcut_config(config: &ShortcutConfig) -> (s: String)
    ensures
        s@ == print_json(config_jsonv(config@)),
{
    let n = config.shortcuts.len();
    let mut bindings: Vec<Json> = Vec::new();
    proof {
        assert(jsonv_of_list(bindings@) =~= bindings_jsonv(binding_views(config.shortcuts@)).take(
            0,
        ));
    }
    let mut i: usize = 0;
    while i < n
        invariant
            i <= n,
            n == config.shortcuts@.len(),
            bindings@.len() == i,
            jsonv_of_list(bindings@) == bindings_jsonv(binding_views(config.shortcuts@)).take(
                i as int,
            ),
        decreases n - i,
    {
        let ghost pre = bindings@;
        let b = binding_to_json(&config.shortcuts[i]);
        bindings.push(b);
        proof {
            crate::json::lemma_jsonv_of_list_push(pre, bindings@[i as int]);
            assert(bindings@ =~= pre.push(bindings@[i as int]));
            assert(jsonv_of(bindings@[i as int]) == bindings_jsonv(
                binding_views(config.shortcuts@),
            )[i as int]);
            assert(jsonv_of_list(bindings@) =~= bindings_jsonv(
                binding_views(config.shortcuts@),
            ).take(i + 1));
        }
        i = i + 1;
    }
    proof {
        assert(bindings_jsonv(binding_views(config.shortcuts@)).take(n as int) =~= bindings_jsonv(
            binding_views(config.shortcuts@),
        ));
    }
    let mut pairs: Vec<(String, Json)> = Vec::new();
    pairs.push((String::from_str("shortcuts"), Json::Arr(bindings)));
    proof {
        lemma_jsonv_of_pairs(pairs@);
        assert(jsonv_of_pairs(pairs@)[0] == (pairs@[0].0@, jsonv_of(pairs@[0].1)));
        assert(jsonv_of_pairs(pairs@) =~= config_jsonv(config@)->Obj_0);
    }
    let j = Json::Obj(pairs);
    encode_json(&j)
}

/// What one stored JSON value reads back as: an object with a known
/// `action` tag, a `shortcut` string and an `enabled` flag.
pub open spec fn binding_of_jsonv(v: JsonV) -> Option<GlobalShortcutV> {
    match v {
        JsonV::Obj(pairs) => match (
            spec_lookup(pairs, "action"@),
            spec_lookup(pairs, "shortcut"@),
            spec_lookup(pairs, "enabled"@),
        ) {
            (Some(JsonV::Str(a)), Some(JsonV::Str(sc)), Some(JsonV::Bool(e))) => match action_of_name(
                a,
            ) {
                Some(act) => Some(GlobalShortcutV { action: act, shortcut: sc, enabled: e }),
                None => None,
            },
            _ => None,
        },
        _ => None,
    }
}

/// All bindings of a stored array, or nothing if any element is malformed.
pub open spec fn bindings_of_jsonv(elems: Seq<JsonV>) -> Option<Seq<GlobalShortcutV>>
    decreases elems.len(),
{
    if elems.len() == 0 {
        Some(Seq::empty())
    } else {
        match (bindings_of_jsonv(elems.drop_last()), binding_of_jsonv(elems.last())) {
            (Some(rest), Some(b)) => Some(rest.push(b)),
            _ => None,
        }
    }
}

/// Elementwise reading of [`bindings_of_jsonv`].
proof fn lemma_bindings_of_jsonv(elems: Seq<JsonV>)
    ensures
        match bindings_of_jsonv(elems) {
            Some(bs) => bs.len() == elems.len() && forall|i: int|
                0 <= i < elems.len() ==> binding_of_jsonv(#[trigger] elems[i]) == Some(bs[i]),
            None => exists|i: int|
                0 <= i < elems.len() && binding_of_jsonv(#[trigger] elems[i]) is None,
        },
    decreases elems.len(),
{
    if elems.len() > 0 {
        let rest = elems.drop_last();
        lemma_bindings_of_jsonv(rest);
        assert(forall|i: int| 0 <= i < rest.len() ==> #[trigger] rest[i] == elems[i]);
        match bindings_of_jsonv(elems) {
            Some(bs) => {
                assert forall|i: int|
                    0 <= i < elems.len() implies binding_of_jsonv(#[trigger] elems[i]) == Some(
                    bs[i],
                ) by {
                    if i < elems.len() - 1 {
                        assert(binding_of_jsonv(rest[i]) == Some(bindings_of_jsonv(rest)->Some_0[i]));
                    }
                }
            },
            None => {
                if bindings_of_jsonv(rest) is None {
                    let i = choose|i: int|
                        0 <= i < rest.len() && binding_of_jsonv(#[trigger] rest[i]) is None;
                    assert(binding_of_jsonv(elems[i]) is None);
                } else {
                    assert(binding_of_jsonv(elems[elems.len() - 1]) is None);
                }
            },
        }
    }
}

/// What a stored table line reads back as: one JSON object whose
/// `shortcuts` field is an array of well-formed bindings.
pub open spec fn spec_decode_shortcut_config(s: Seq<char>) -> Option<ShortcutConfigV> {
    match sp_json(s) {
        Some(JsonV::Obj(pairs)) => match spec_lookup(pairs, "shortcuts"@) {
            Some(JsonV::Arr(elems)) => match bindings_of_jsonv(elems) {
                Some(bs) => Some(ShortcutConfigV { shortcuts: bs }),
                None => None,
            },
            _ => None,
        },
        _ => None,
    }
}

/// Reads a stored shortcut table back; `None` is a malformed value.
#[verifier::loop_isolation(false)]
#[verifier::rlimit(60)]
pub fn decode_shortcut_config(s: &str) -> (r: Option<ShortcutConfig>)
    ensures
        match r {
            Some(cfg) => spec_decode_shortcut_config(s@) == Some(cfg@),
            None => spec_decode_shortcut_config(s@) is None,
        },
{
    let parsed = match decode_json(s) {
        Some(v) => v,
        None => {
            return None;
        },
    };
    let pairs = match parsed {
        Json::Obj(pairs) => pairs,
        _ => {
            return None;
        },
    };
    let elems = match crate::codec::json_lookup(&pairs, "shortcuts") {
        Some(Json::Arr(elems)) => elems,
        _ => {
            return None;
        },
    };
    proof {
        lemma_jsonv_of_list(elems@);
        lemma_bindings_of_jsonv(jsonv_of_list(elems@));
    }
    let ghost ev = jsonv_of_list(elems@);
    let n = elems.len();
    let mut out: Vec<GlobalShortcut> = Vec::new();
    let mut i: usize = 0;
    while i < n
        invariant
            i <= n,
            n == elems@.len(),
            ev.len() == n,
            out@.len() == i,
            forall|j: int| 0 <= j < i ==> binding_of_jsonv(#[trigger] ev[j]) == Some(out@[j]@),
        decreases n - i,
    {
        let bpairs = match &elems[i] {
            Json::Obj(bpairs) => bpairs,
            _ => {
                return None;
            },
        };
        let act = match crate::codec::json_lookup(bpairs, "action") {
            Some(Json::Str(a)) => match action_of_name_x(a.as_str()) {
                Some(act) => act,
                None => {
                    return None;
                },
            },
            _ => {
                return None;
            },
        };
        let chord = match crate::codec::json_lookup(bpairs, "shortcut") {
            Some(Json::Str(sc)) => sc.clone(),
            _ => {
                return None;
            },
        };
        let on = match crate::codec::json_lookup(bpairs, "enabled") {
            Some(Json::Bool(e)) => *e,
            _ => {
                return None;
            },
        };
        out.push(GlobalShortcut { action: act, shortcut: chord, enabled: on });
        proof {
            assert(ev[i as int] == jsonv_of(elems@[i as int]));
            assert(binding_of_jsonv(ev[i as int]) == Some(out@[i as int]@));
        }
        i = i + 1;
    }
    proof {
        match bindings_of_jsonv(ev) {
            Some(bs) => {
                assert forall|j: int|
                    0 <= j < out@.len() implies #[trigger] binding_views(out@)[j] == bs[j] by {
                    assert(binding_views(out@)[j] == out@[j]@);
                    assert(binding_of_jsonv(ev[j]) == Some(out@[j]@));
                    assert(binding_of_jsonv(ev[j]) == Some(bs[j]));
                }
                assert(binding_views(out@) =~= bs);
            },
            None => {
                let w = choose|w: int| 0 <= w < ev.len() && binding_of_jsonv(#[trigger] ev[w]) is None;
                assert(binding_of_jsonv(ev[w]) == Some(out@[w]@));
                assert(false);
            },
        }
    }
    Some(ShortcutConfig { shortcuts: out })
}

/// The stored table, the out-of-the-box table when none is stored, or an
/// error when the stored value does not read back.
pub fn get_shortcut_config(db: &crate::store::Database) -> (r: Result<ShortcutConfig, String>)
    requires
        db.wf(),
    ensures
        match r {
            Ok(cfg) => match db.spec_get_setting("shortcut_config"@) {
                Some(p) => spec_decode_shortcut_config(p.0) == Some(cfg@),
                None => {
                    &&& cfg.shortcuts@.len() == 5
                    &&& forall|i: int|
                        0 <= i < 5 ==> (#[trigger] cfg.shortcuts@[i]).action
                            == ShortcutAction::all_actions_spec()[i]
                    &&& forall|i: int|
                        0 <= i < 5 ==> (#[trigger] cfg.shortcuts@[i]).shortcut@
                            == spec_default_shortcut(cfg.shortcuts@[i].action)
                    &&& forall|i: int|
                        0 <= i < 5 ==> ((#[trigger] cfg.shortcuts@[i]).enabled
                            <==> cfg.shortcuts@[i].action == ShortcutAction::ToggleWindow)
                },
            },
            Err(e) => {
                &&& db.spec_get_setting("shortcut_config"@) matches Some(p)
                    && spec_decode_shortcut_config(p.0) is None
                &&& e@ == "Failed to parse config"@
            },
        },
{
    match db.get_setting("shortcut_config") {
        Some(stored) => match decode_shortcut_config(stored.as_str()) {
            Some(cfg) => Ok(cfg),
            None => Err(String::from_str("Failed to parse config")),
        },
        None => Ok(ShortcutConfig::default()),
    }
}

/// Stores the table under its settings key, written at time `now`.
pub fn update_shortcut_config(db: &mut crate::store::Database, config: &ShortcutConfig, now: i64)
    requires
        old(db).wf(),
    ensures
        final(db).wf(),
        final(db).spec_get_setting("shortcut_config"@) == Some(
            (print_json(config_jsonv(config@)), now as int),
        ),
        forall|k: Seq<char>|
            k != "shortcut_config"@ ==> final(db).spec_get_setting(k) == old(db).spec_get_setting(
                k,
            ),
        final(db).conversations@ == old(db).conversations@,
        final(db).messages@ == old(db).messages@,
        final(db).index@ == old(db).index@,
        final(db).policy == old(db).policy,
        final(db).next_seq == old(db).next_seq,
{
    let text = encode_shortcut_config(config);
    db.set_setting("shortcut_config", text.as_str(), now);
}

/// Every action tag reads back as its action.
proof fn lemma_action_name_round_trip(a: ShortcutAction)
    ensures
        action_of_name(action_name(a)) == Some(a),
{
    reveal_strlit("ToggleWindow");
    reveal_strlit("NewConversation");
    reveal_strlit("OpenSettings");
    reveal_strlit("QuickCapture");
    reveal_strlit("FocusInput");
    assert("ToggleWindow"@.len() == 12);
    assert("NewConversation"@.len() == 15);
    assert("OpenSettings"@.len() == 12);
    assert("QuickCapture"@.len() == 12);
    assert("FocusInput"@.len() == 10);
    assert("OpenSettings"@[0] == 'O' && "ToggleWindow"@[0] == 'T' && "QuickCapture"@[0] == 'Q');
}

/// One binding's stored form reads back as the binding.
proof fn lemma_binding_round_trip(b: GlobalShortcutV)
    ensures
        binding_of_jsonv(binding_jsonv(b)) == Some(b),
{
    reveal_with_fuel(spec_lookup, 4);
    reveal_strlit("action");
    reveal_strlit("shortcut");
    reveal_strlit("enabled");
    assert("action"@.len() == 6 && "shortcut"@.len() == 8 && "enabled"@.len() == 7);
    let pairs = binding_jsonv(b)->Obj_0;
    assert(spec_lookup(pairs, "action"@) == Some(JsonV::Str(action_name(b.action))));
    assert(spec_lookup(pairs, "shortcut"@) == Some(JsonV::Str(b.shortcut)));
    assert(spec_lookup(pairs, "enabled"@) == Some(JsonV::Bool(b.enabled)));
    lemma_action_name_round_trip(b.action);
}

/// A stored list of bindings reads back as the list.
proof fn lemma_bindings_round_trip(s: Seq<GlobalShortcutV>)
    ensures
        bindings_of_jsonv(bindings_jsonv(s)) == Some(s),
    decreases s.len(),
{
    if s.len() == 0 {
        assert(bindings_jsonv(s) =~= Seq::<JsonV>::empty());
    } else {
        assert(bindings_jsonv(s).drop_last() =~= bindings_jsonv(s.drop_last()));
        lemma_bindings_round_trip(s.drop_last());
        assert(bindings_jsonv(s).last() == binding_jsonv(s.last()));
        lemma_binding_round_trip(s.last());
        assert(s.drop_last().push(s.last()) =~= s);
    }
}

/// The table round trip: a written shortcut table reads back field for
/// field — with the settings store in between, a saved configuration is
/// the one loaded.
pub proof fn lemma_config_round_trip(c: ShortcutConfigV)
    ensures
        spec_decode_shortcut_config(print_json(config_jsonv(c))) == Some(c),
{
    let v = config_jsonv(c);
    assert(crate::json::wf_jsonv(v)) by {
        let pairs = v->Obj_0;
        assert forall|k: int|
            0 <= k < pairs.len() implies crate::json::wf_jsonv(#[trigger] pairs[k].1) by {
            let elems = bindings_jsonv(c.shortcuts);
            assert(pairs[k].1 == JsonV::Arr(elems));
            assert forall|t: int|
                0 <= t < elems.len() implies crate::json::wf_jsonv(#[trigger] elems[t]) by {
                assert(elems[t] == binding_jsonv(c.shortcuts[t]));
                let bpairs = binding_jsonv(c.shortcuts[t])->Obj_0;
                assert(forall|w: int|
                    0 <= w < bpairs.len() ==> crate::json::wf_jsonv(#[trigger] bpairs[w].1));
                assert(crate::json::wf_jsonv_pairs(bpairs));
            }
            assert(crate::json::wf_jsonv_list(elems));
        }
        assert(crate::json::wf_jsonv_pairs(pairs));
    }
    crate::json::lemma_json_round_trip(v);
    reveal_with_fuel(spec_lookup, 3);
    let pairs = v->Obj_0;
    assert(spec_lookup(pairs, "shortcuts"@) == Some(JsonV::Arr(bindings_jsonv(c.shortcuts))));
    lemma_bindings_round_trip(c.shortcuts);
}

} // verus!
