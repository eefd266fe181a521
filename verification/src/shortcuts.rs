//! Global shortcut parsing, validation and the registration manager that
//! keeps operating-system registrations and persisted settings in step,
//! rolling back every partial change when a step fails.
use vstd::prelude::*;

use crate::settings::{
    action_at, action_index, default_shortcut_texts, shortcut_problem, spec_field_name, AppSettings,
    ShortcutAction,
    ShortcutSettings,
};
use crate::text::{
    chars_equal, chars_of, concat_str, join_seqs, join_strings, lemma_mentions_middle,
    lemma_trim_idempotent, mentions, trim, trim_str,
};

verus! {

// ---------------------------------------------------------------------------
// Parsing
// ---------------------------------------------------------------------------

/// A shortcut as the hotkey parser understands it: its identifier (a
/// function of the modifiers and the key) and the name of its key.
pub struct ParsedShortcut {
    pub id: u32,
    pub key: String,
}

impl Clone for ParsedShortcut {
    fn clone(&self) -> (r: Self)
        ensures
            r == *self,
    {
        ParsedShortcut { id: self.id, key: self.key.clone() }
    }
}

/// What `global_hotkey`'s `HotKey::from_str` makes of a text: the hotkey's
/// identifier and key name, or the text of its parse error. The parser is a
/// function of the text, fixed for the operating system the application is
/// built for (the `CmdOrCtrl` aliases mean Command on macOS and Control
/// elsewhere).
pub uninterp spec fn parsed_hotkey(text: Seq<char>) -> Result<(u32, Seq<char>), Seq<char>>;

/// Parses `text` with `global_hotkey::hotkey::HotKey::from_str` (the parser
/// behind `tauri_plugin_global_shortcut::Shortcut`) and hands out the
/// hotkey's `id()` and the `Display` name of its key, or the `Display` text
/// of the parse error. The contract only ties the result to the text through
/// the name `parsed_hotkey`.
#[verifier::external_body]
fn parse_hotkey(text: &str) -> (r: Result<ParsedShortcut, String>)
    ensures
        match r {
            Ok(p) => parsed_hotkey(text@) == Ok::<(u32, Seq<char>), Seq<char>>((p.id, p.key@)),
            Err(e) => parsed_hotkey(text@) == Err::<(u32, Seq<char>), Seq<char>>(e@),
        },
{
    match text.parse::<global_hotkey::hotkey::HotKey>() {
        Ok(hotkey) => Ok(ParsedShortcut { id: hotkey.id(), key: hotkey.key.to_string() }),
        Err(error) => Err(error.to_string()),
    }
}

/// The key names of the hardware media keys, which native media controls
/// already handle.
pub open spec fn is_media_key_name(key: Seq<char>) -> bool {
    ||| key == "MediaFastForward"@
    ||| key == "MediaPause"@
    ||| key == "MediaPlay"@
    ||| key == "MediaPlayPause"@
    ||| key == "MediaRewind"@
    ||| key == "MediaStop"@
    ||| key == "MediaTrackNext"@
    ||| key == "MediaTrackPrevious"@
}

fn str_equal(a: &str, b: &str) -> (r: bool)
    ensures
        r == (a@ == b@),
{
    let x = chars_of(a);
    let y = chars_of(b);
    chars_equal(x.as_slice(), y.as_slice())
}

/// Whether `key` names a hardware media key.
pub fn is_hardware_media_key(key: &str) -> (r: bool)
    ensures
        r == is_media_key_name(key@),
{
    str_equal(key, "MediaFastForward") || str_equal(key, "MediaPause") || str_equal(
        key,
        "MediaPlay",
    ) || str_equal(key, "MediaPlayPause") || str_equal(key, "MediaRewind") || str_equal(
        key,
        "MediaStop",
    ) || str_equal(key, "MediaTrackNext") || str_equal(key, "MediaTrackPrevious")
}

/// The outcome for action `a` of the trimmed shortcut text `t`, given what
/// the hotkey parser made of it: a parse error is reported with the action
/// and the text, and a hardware media key is refused.
pub open spec fn shortcut_outcome(
    a: ShortcutAction,
    t: Seq<char>,
    parsed: Result<(u32, Seq<char>), Seq<char>>,
) -> Result<(u32, Seq<char>), Seq<char>> {
    match parsed {
        Err(e) => Err("invalid "@ + spec_field_name(a) + " shortcut `"@ + t + "`: "@ + e),
        Ok(p) => if is_media_key_name(p.1) {
            Err(
                spec_field_name(a)
                    + " shortcut cannot use a hardware media key because native media controls already handle it"@,
            )
        } else {
            Ok(p)
        },
    }
}

/// The outcome of parsing the shortcut text `s` for action `a`.
pub open spec fn spec_parse_shortcut(a: ShortcutAction, s: Seq<char>) -> Result<
    (u32, Seq<char>),
    Seq<char>,
> {
    shortcut_outcome(a, trim(s), parsed_hotkey(trim(s)))
}

/// The values of a parser result.
pub open spec fn parse_view(r: Result<ParsedShortcut, String>) -> Result<(u32, Seq<char>), Seq<char>> {
    match r {
        Ok(p) => Ok((p.id, p.key@)),
        Err(e) => Err(e@),
    }
}

/// The name an action goes by in shortcut messages.
pub fn action_name(action: ShortcutAction) -> (r: &'static str)
    ensures
        r@ == spec_field_name(action),
{
    action.field_name()
}

/// Parses the trimmed `shortcut` and refuses hardware media keys.
pub fn parse_shortcut(action: ShortcutAction, shortcut: &str) -> (r: Result<ParsedShortcut, String>)
    ensures
        parse_view(r) == spec_parse_shortcut(action, shortcut@),
{
    let trimmed = trim_str(shortcut);
    let parsed = parse_hotkey(trimmed.as_str());
    check_parsed_shortcut(action, trimmed.as_str(), parsed)
}

/// Turns what the hotkey parser made of the trimmed text `trimmed` into the
/// outcome for `action`.
pub fn check_parsed_shortcut(
    action: ShortcutAction,
    trimmed: &str,
    parsed: Result<ParsedShortcut, String>,
) -> (r: Result<ParsedShortcut, String>)
    ensures
        parse_view(r) == shortcut_outcome(action, trimmed@, parse_view(parsed)),
{
    match parsed {
        Err(error) => {
            let mut message = concat_str("invalid ", action_name(action));
            message.append(" shortcut `");
            message.append(trimmed);
            message.append("`: ");
            message.append(error.as_str());
            Err(message)
        },
        Ok(parsed) => {
            if is_hardware_media_key(parsed.key.as_str()) {
                Err(
                    concat_str(
                        action_name(action),
                        " shortcut cannot use a hardware media key because native media controls already handle it",
                    ),
                )
            } else {
                Ok(parsed)
            }
        },
    }
}

/// The message for two actions bound to the same shortcut.
pub open spec fn duplicate_message(first: ShortcutAction, second: ShortcutAction) -> Seq<char> {
    spec_field_name(first) + " and "@ + spec_field_name(second) + " use the same shortcut"@
}

/// The message for two actions bound to the same shortcut.
pub fn duplicate_error(first: ShortcutAction, second: ShortcutAction) -> (r: String)
    ensures
        r@ == duplicate_message(first, second),
{
    let mut message = concat_str(action_name(first), " and ");
    message.append(action_name(second));
    message.append(" use the same shortcut");
    message
}

// ---------------------------------------------------------------------------
// Validation of a whole shortcut set
// ---------------------------------------------------------------------------

/// A shortcut registered (or to be registered) for an action: the trimmed
/// text and what the parser made of it.
pub struct RegisteredBinding {
    pub text: String,
    pub shortcut: ParsedShortcut,
}

impl Clone for RegisteredBinding {
    fn clone(&self) -> (r: Self)
        ensures
            r == *self,
    {
        RegisteredBinding { text: self.text.clone(), shortcut: self.shortcut.clone() }
    }
}

/// The identifier parsed for position `k` of `texts` (0 where parsing fails).
pub open spec fn parsed_id(texts: Seq<Seq<char>>, k: int) -> u32 {
    match spec_parse_shortcut(action_at(k), trim(texts[k])) {
        Ok(p) => p.0,
        Err(_) => 0,
    }
}

/// The first position in `j..i` whose parsed identifier is `id`.
pub open spec fn find_id(texts: Seq<Seq<char>>, id: u32, j: int, i: int) -> Option<int>
    decreases i - j,
{
    if j < 0 || j >= i {
        None
    } else if parsed_id(texts, j) == id {
        Some(j)
    } else {
        find_id(texts, id, j + 1, i)
    }
}

/// The first problem found when parsing the shortcuts at positions `i` and
/// later, each earlier one having parsed to a distinct hotkey.
pub open spec fn binding_problem(texts: Seq<Seq<char>>, i: int) -> Option<Seq<char>>
    decreases texts.len() - i,
{
    if i < 0 || i >= texts.len() {
        None
    } else {
        match spec_parse_shortcut(action_at(i), trim(texts[i])) {
            Err(m) => Some(m),
            Ok(p) => match find_id(texts, p.0, 0, i) {
                Some(j) => Some(duplicate_message(action_at(j), action_at(i))),
                None => binding_problem(texts, i + 1),
            },
        }
    }
}

/// The problem that stops a shortcut set from being registered, if any:
/// first the settings rules, then the hotkey parser's.
pub open spec fn registration_problem(s: ShortcutSettings) -> Option<Seq<char>> {
    match s.problem() {
        Some(m) => Some(m),
        None => binding_problem(s.texts(), 0),
    }
}

/// `b` is the binding that validation builds for position `i` of `texts`.
pub open spec fn is_binding_for(texts: Seq<Seq<char>>, i: int, b: RegisteredBinding) -> bool {
    &&& b.text@ == trim(texts[i])
    &&& spec_parse_shortcut(action_at(i), trim(texts[i])) == Ok::<(u32, Seq<char>), Seq<char>>(
        (b.shortcut.id, b.shortcut.key@),
    )
}

/// Validates the settings and parses every shortcut, refusing two actions
/// whose shortcuts parse to the same hotkey.
pub fn validated_bindings(shortcuts: &ShortcutSettings) -> (r: Result<
    Vec<(ShortcutAction, RegisteredBinding)>,
    String,
>)
    ensures
        r is Ok <==> registration_problem(*shortcuts) is None,
        r matches Err(e) ==> registration_problem(*shortcuts) == Some(e@),
        r matches Ok(v) ==> v@.len() == 5 && forall|i: int|
            0 <= i < 5 ==> (#[trigger] v@[i]).0 == action_at(i) && is_binding_for(
                shortcuts.texts(),
                i,
                v@[i].1,
            ),
{
    match shortcuts.validate() {
        Err(e) => {
            return Err(e);
        },
        Ok(()) => {},
    }
    let ghost texts = shortcuts.texts();
    let mut bindings: Vec<(ShortcutAction, RegisteredBinding)> = Vec::new();
    let mut i: usize = 0;
    while i < 5
        invariant
            i <= 5,
            texts == shortcuts.texts(),
            shortcuts.problem() is None,
            bindings@.len() == i,
            forall|k: int|
                0 <= k < i ==> (#[trigger] bindings@[k]).0 == action_at(k) && is_binding_for(
                    texts,
                    k,
                    bindings@[k].1,
                ),
            binding_problem(texts, 0) == binding_problem(texts, i as int),
        decreases 5 - i,
    {
        let action = ShortcutAction::at(i);
        let text = trim_str(shortcuts.get(action));
        assert(text@ == trim(texts[i as int]));
        let shortcut = match parse_shortcut(action, text.as_str()) {
            Ok(shortcut) => shortcut,
            Err(e) => {
                return Err(e);
            },
        };
        let mut j: usize = 0;
        while j < bindings.len()
            invariant
                i < 5,
                j <= bindings@.len() == i,
                texts == shortcuts.texts(),
                shortcuts.problem() is None,
                binding_problem(texts, 0) == binding_problem(texts, i as int),
                action == action_at(i as int),
                spec_parse_shortcut(action_at(i as int), trim(texts[i as int])) == Ok::<
                    (u32, Seq<char>),
                    Seq<char>,
                >((shortcut.id, shortcut.key@)),
                forall|k: int|
                    0 <= k < i ==> (#[trigger] bindings@[k]).0 == action_at(k) && is_binding_for(
                        texts,
                        k,
                        bindings@[k].1,
                    ),
                find_id(texts, shortcut.id, 0, i as int) == find_id(
                    texts,
                    shortcut.id,
                    j as int,
                    i as int,
                ),
            decreases bindings@.len() - j,
        {
            assert(parsed_id(texts, j as int) == bindings@[j as int].1.shortcut.id);
            if bindings[j].1.shortcut.id == shortcut.id {
                return Err(duplicate_error(bindings[j].0, action));
            }
            j = j + 1;
        }
        bindings.push((action, RegisteredBinding { text, shortcut }));
        i = i + 1;
    }
    Ok(bindings)
}

/// Accepts a shortcut set only if it can be registered as a whole.
pub fn validate_shortcut_settings(shortcuts: &ShortcutSettings) -> (r: Result<(), String>)
    ensures
        r is Ok <==> registration_problem(*shortcuts) is None,
        r matches Err(e) ==> registration_problem(*shortcuts) == Some(e@),
{
    match validated_bindings(shortcuts) {
        Ok(_) => Ok(()),
        Err(e) => Err(e),
    }
}


// ---------------------------------------------------------------------------
// Registration manager
// ---------------------------------------------------------------------------

/// A shortcut that could not be registered at startup, and why.
#[derive(Debug, PartialEq, Eq)]
pub struct ShortcutRegistrationFailure {
    pub action: ShortcutAction,
    pub shortcut: String,
    pub error: String,
}

/// How many configured shortcuts were registered at startup, and which
/// could not be.
#[derive(Debug, PartialEq, Eq)]
pub struct StartupRegistrationReport {
    pub registered: usize,
    pub failures: Vec<ShortcutRegistrationFailure>,
}

impl Default for StartupRegistrationReport {
    fn default() -> (r: Self)
        ensures
            r.registered == 0,
            r.failures@.len() == 0,
    {
        StartupRegistrationReport { registered: 0, failures: Vec::new() }
    }
}

/// Where shortcuts are registered with the operating system. Each call may
/// fail with a message; nothing is assumed of its outcome.
pub trait RegistrationBackend {
    fn register(&self, action: ShortcutAction, binding: &RegisteredBinding) -> Result<(), String>;

    fn unregister(&self, binding: &RegisteredBinding) -> Result<(), String>;
}

/// Where settings are read from and written to. Nothing is assumed of what
/// `snapshot` returns or of whether `replace` succeeds.
pub trait SettingsPersistence {
    fn snapshot(&self) -> AppSettings;

    fn replace(&self, settings: AppSettings) -> Result<(), String>;
}

/// A call that the manager made to the registration backend or to the
/// settings persistence, with what the call returned.
pub enum ManagerCall {
    ReadSettings(AppSettings),
    Register(ShortcutAction, RegisteredBinding, Result<(), String>),
    Unregister(RegisteredBinding, Result<(), String>),
    WriteSettings(AppSettings, Result<(), String>),
}

/// One registration slot per action, and the calls made so far.
struct ShortcutManagerState {
    play_pause: Option<RegisteredBinding>,
    next: Option<RegisteredBinding>,
    previous: Option<RegisteredBinding>,
    seek_forward_10: Option<RegisteredBinding>,
    seek_backward_10: Option<RegisteredBinding>,
    calls: Ghost<Seq<ManagerCall>>,
}

fn clone_slot(slot: &Option<RegisteredBinding>) -> (r: Option<RegisteredBinding>)
    ensures
        r == *slot,
{
    match slot {
        Some(binding) => Some(binding.clone()),
        None => None,
    }
}

impl ShortcutManagerState {
    spec fn slots(self) -> Seq<Option<RegisteredBinding>> {
        seq![self.play_pause, self.next, self.previous, self.seek_forward_10, self.seek_backward_10]
    }

    spec fn calls(self) -> Seq<ManagerCall> {
        self.calls@
    }

    /// Asks the backend to register `binding` for `action`.
    fn register_on<B: RegistrationBackend>(
        &mut self,
        backend: &B,
        action: ShortcutAction,
        binding: &RegisteredBinding,
    ) -> (r: Result<(), String>)
        ensures
            final(self).slots() == old(self).slots(),
            final(self).calls() == old(self).calls().push(ManagerCall::Register(action, *binding, r)),
    {
        let r = backend.register(action, binding);
        self.calls = Ghost(self.calls@.push(ManagerCall::Register(action, *binding, r)));
        r
    }

    /// Asks the backend to unregister `binding`.
    fn unregister_on<B: RegistrationBackend>(&mut self, backend: &B, binding: &RegisteredBinding) -> (r:
        Result<(), String>)
        ensures
            final(self).slots() == old(self).slots(),
            final(self).calls() == old(self).calls().push(ManagerCall::Unregister(*binding, r)),
    {
        let r = backend.unregister(binding);
        self.calls = Ghost(self.calls@.push(ManagerCall::Unregister(*binding, r)));
        r
    }

    /// Reads the stored settings.
    fn read_settings<P: SettingsPersistence>(&mut self, persistence: &P) -> (r: AppSettings)
        ensures
            final(self).slots() == old(self).slots(),
            final(self).calls() == old(self).calls().push(ManagerCall::ReadSettings(r)),
    {
        let r = persistence.snapshot();
        self.calls = Ghost(self.calls@.push(ManagerCall::ReadSettings(r)));
        r
    }

    /// Writes `settings` to the persistence.
    fn write_settings<P: SettingsPersistence>(&mut self, persistence: &P, settings: AppSettings) -> (r:
        Result<(), String>)
        ensures
            final(self).slots() == old(self).slots(),
            final(self).calls() == old(self).calls().push(ManagerCall::WriteSettings(settings, r)),
    {
        let ghost written = settings;
        let r = persistence.replace(settings);
        self.calls = Ghost(self.calls@.push(ManagerCall::WriteSettings(written, r)));
        r
    }

    fn empty() -> (r: Self)
        ensures
            r.calls().len() == 0,
            r.slots() == seq![
                None::<RegisteredBinding>,
                None::<RegisteredBinding>,
                None::<RegisteredBinding>,
                None::<RegisteredBinding>,
                None::<RegisteredBinding>,
            ],
    {
        ShortcutManagerState {
            play_pause: None,
            next: None,
            previous: None,
            seek_forward_10: None,
            seek_backward_10: None,
            calls: Ghost(Seq::empty()),
        }
    }

    fn copy(&self) -> (r: Self)
        ensures
            r.slots() == self.slots(),
    {
        ShortcutManagerState {
            play_pause: clone_slot(&self.play_pause),
            next: clone_slot(&self.next),
            previous: clone_slot(&self.previous),
            seek_forward_10: clone_slot(&self.seek_forward_10),
            seek_backward_10: clone_slot(&self.seek_backward_10),
            calls: Ghost(self.calls@),
        }
    }

    fn get(&self, action: ShortcutAction) -> (r: Option<RegisteredBinding>)
        ensures
            r == self.slots()[action_index(action)],
    {
        match action {
            ShortcutAction::PlayPause => clone_slot(&self.play_pause),
            ShortcutAction::Next => clone_slot(&self.next),
            ShortcutAction::Previous => clone_slot(&self.previous),
            ShortcutAction::SeekForward10 => clone_slot(&self.seek_forward_10),
            ShortcutAction::SeekBackward10 => clone_slot(&self.seek_backward_10),
        }
    }

    fn take(&mut self, action: ShortcutAction) -> (r: Option<RegisteredBinding>)
        ensures
            r == old(self).slots()[action_index(action)],
            final(self).slots() == old(self).slots().update(action_index(action), None),
            final(self).calls() == old(self).calls(),
    {
        let r = match action {
            ShortcutAction::PlayPause => self.play_pause.take(),
            ShortcutAction::Next => self.next.take(),
            ShortcutAction::Previous => self.previous.take(),
            ShortcutAction::SeekForward10 => self.seek_forward_10.take(),
            ShortcutAction::SeekBackward10 => self.seek_backward_10.take(),
        };
        assert(final(self).slots() =~= old(self).slots().update(action_index(action), None));
        r
    }

    fn insert(&mut self, action: ShortcutAction, binding: RegisteredBinding)
        ensures
            final(self).slots() == old(self).slots().update(action_index(action), Some(binding)),
            final(self).calls() == old(self).calls(),
    {
        match action {
            ShortcutAction::PlayPause => self.play_pause = Some(binding),
            ShortcutAction::Next => self.next = Some(binding),
            ShortcutAction::Previous => self.previous = Some(binding),
            ShortcutAction::SeekForward10 => self.seek_forward_10 = Some(binding),
            ShortcutAction::SeekBackward10 => self.seek_backward_10 = Some(binding),
        }
        assert(final(self).slots() =~= old(self).slots().update(
            action_index(action),
            Some(binding),
        ));
    }
}

/// The registration for each action that the manager currently holds.
pub struct ShortcutManager {
    state: ShortcutManagerState,
}

impl Default for ShortcutManager {
    fn default() -> (r: Self)
        ensures
            forall|i: int| 0 <= i < 5 ==> (#[trigger] r.registrations()[i]) is None,
            r.registrations().len() == 5,
            r.calls().len() == 0,
    {
        ShortcutManager { state: ShortcutManagerState::empty() }
    }
}

impl ShortcutManager {
    /// The registration held for each action, in `ALL` order.
    pub closed spec fn registrations(self) -> Seq<Option<RegisteredBinding>> {
        self.state.slots()
    }

    /// Every call made to a registration backend or a settings persistence,
    /// in order, with what it returned.
    pub closed spec fn calls(self) -> Seq<ManagerCall> {
        self.state.calls()
    }

    /// The registration held for `action`.
    pub fn registered(&self, action: ShortcutAction) -> (r: Option<RegisteredBinding>)
        ensures
            r == self.registrations()[action_index(action)],
    {
        self.state.get(action)
    }
}

/// The actions of `bindings` are pairwise distinct.
pub open spec fn distinct_actions(bindings: Seq<(ShortcutAction, RegisteredBinding)>) -> bool {
    forall|i: int, j: int|
        0 <= i < j < bindings.len() ==> (#[trigger] bindings[i]).0 != (#[trigger] bindings[j]).0
}

/// `slots` after every binding of the list has been inserted, if the list's
/// actions are distinct.
pub open spec fn inserted_all(
    slots: Seq<Option<RegisteredBinding>>,
    bindings: Seq<(ShortcutAction, RegisteredBinding)>,
) -> Seq<Option<RegisteredBinding>> {
    Seq::new(
        slots.len(),
        |k: int|
            if exists|j: int| 0 <= j < bindings.len() && action_index(bindings[j].0) == k {
                Some(
                    bindings[choose|j: int|
                        0 <= j < bindings.len() && action_index(bindings[j].0) == k].1,
                )
            } else {
                slots[k]
            },
    )
}

/// `slots` after the slot of every binding of the list has been emptied.
pub open spec fn removed_all(
    slots: Seq<Option<RegisteredBinding>>,
    bindings: Seq<(ShortcutAction, RegisteredBinding)>,
) -> Seq<Option<RegisteredBinding>> {
    Seq::new(
        slots.len(),
        |k: int|
            if exists|j: int| 0 <= j < bindings.len() && action_index(bindings[j].0) == k {
                None
            } else {
                slots[k]
            },
    )
}

/// The message that reports a rollback: complete, or with what failed.
pub open spec fn rollback_message(primary: Seq<char>, errors: Seq<Seq<char>>) -> Seq<char> {
    if errors.len() == 0 {
        primary + "; the previous shortcuts were restored"@
    } else {
        primary + "; rollback was incomplete: "@ + join_seqs(errors, "; "@)
    }
}

/// Appends to `primary` whether the rollback restored everything.
pub fn with_rollback_errors(primary: String, rollback_errors: Vec<String>) -> (r: String)
    ensures
        r@ == rollback_message(primary@, rollback_errors@.map_values(|e: String| e@)),
{
    let mut message = primary;
    if rollback_errors.len() == 0 {
        message.append("; the previous shortcuts were restored");
    } else {
        message.append("; rollback was incomplete: ");
        let joined = join_strings(&rollback_errors, "; ");
        message.append(joined.as_str());
    }
    message
}

proof fn lemma_inserted_step(
    slots: Seq<Option<RegisteredBinding>>,
    bindings: Seq<(ShortcutAction, RegisteredBinding)>,
    i: int,
)
    requires
        0 <= i < bindings.len(),
        slots.len() == 5,
        distinct_actions(bindings),
    ensures
        inserted_all(slots, bindings.take(i + 1)) == inserted_all(slots, bindings.take(i)).update(
            action_index(bindings[i].0),
            Some(bindings[i].1),
        ),
{
    let a = bindings.take(i);
    let b = bindings.take(i + 1);
    let k0 = action_index(bindings[i].0);
    assert forall|k: int| 0 <= k < 5 implies #[trigger] inserted_all(slots, b)[k] == inserted_all(
        slots,
        a,
    ).update(k0, Some(bindings[i].1))[k] by {
        if k == k0 {
            assert(b[i] == bindings[i]);
            let j = choose|j: int| 0 <= j < b.len() && action_index(b[j].0) == k;
            if j != i {
                assert(b[j] == bindings[j]);
                assert(bindings[j].0 != bindings[i].0);
            }
        } else {
            if exists|j: int| 0 <= j < b.len() && action_index(b[j].0) == k {
                let j = choose|j: int| 0 <= j < b.len() && action_index(b[j].0) == k;
                assert(j != i);
                assert(a[j] == b[j]);
                let j2 = choose|j2: int| 0 <= j2 < a.len() && action_index(a[j2].0) == k;
                if j2 != j {
                    assert(a[j2] == bindings[j2] && a[j] == bindings[j]);
                    assert(bindings[j2].0 != bindings[j].0);
                }
            } else {
                assert forall|j: int| 0 <= j < a.len() implies action_index(a[j].0) != k by {
                    assert(a[j] == b[j]);
                }
            }
        }
    }
    assert(inserted_all(slots, b) =~= inserted_all(slots, a).update(k0, Some(bindings[i].1)));
}

proof fn lemma_removed_step(
    slots: Seq<Option<RegisteredBinding>>,
    bindings: Seq<(ShortcutAction, RegisteredBinding)>,
    i: int,
)
    requires
        0 <= i < bindings.len(),
        slots.len() == 5,
    ensures
        removed_all(slots, bindings.take(i + 1)) == removed_all(slots, bindings.take(i)).update(
            action_index(bindings[i].0),
            None,
        ),
{
    let a = bindings.take(i);
    let b = bindings.take(i + 1);
    let k0 = action_index(bindings[i].0);
    assert forall|k: int| 0 <= k < 5 implies #[trigger] removed_all(slots, b)[k] == removed_all(
        slots,
        a,
    ).update(k0, None)[k] by {
        if k == k0 {
            assert(b[i] == bindings[i]);
        } else if exists|j: int| 0 <= j < b.len() && action_index(b[j].0) == k {
            let j = choose|j: int| 0 <= j < b.len() && action_index(b[j].0) == k;
            assert(a[j] == b[j]);
        } else {
            assert forall|j: int| 0 <= j < a.len() implies action_index(a[j].0) != k by {
                assert(a[j] == b[j]);
            }
        }
    }
    assert(removed_all(slots, b) =~= removed_all(slots, a).update(k0, None));
}

proof fn lemma_inserted_none(slots: Seq<Option<RegisteredBinding>>)
    requires
        slots.len() == 5,
    ensures
        inserted_all(slots, Seq::empty()) == slots,
        removed_all(slots, Seq::empty()) == slots,
{
    assert(inserted_all(slots, Seq::empty()) =~= slots);
    assert(removed_all(slots, Seq::empty()) =~= slots);
}

/// The call returned an error.
pub open spec fn call_failed(call: ManagerCall) -> bool {
    match call {
        ManagerCall::ReadSettings(_) => false,
        ManagerCall::Register(_, _, o) => o is Err,
        ManagerCall::Unregister(_, o) => o is Err,
        ManagerCall::WriteSettings(_, o) => o is Err,
    }
}

/// No call of `c` returned an error.
pub open spec fn no_failure(c: Seq<ManagerCall>) -> bool {
    forall|i: int| 0 <= i < c.len() ==> !call_failed(#[trigger] c[i])
}

/// At most one call of `c` returned an error.
pub open spec fn single_failure(c: Seq<ManagerCall>) -> bool {
    forall|i: int, j: int|
        0 <= i < j < c.len() && call_failed(#[trigger] c[i]) ==> !call_failed(#[trigger] c[j])
}

/// Registers every binding of the list again, in order, collecting what
/// fails; each binding that registers takes its action's slot.
fn restore_bindings<B: RegistrationBackend>(
    backend: &B,
    state: &mut ShortcutManagerState,
    bindings: &Vec<(ShortcutAction, RegisteredBinding)>,
) -> (errors: Vec<String>)
    requires
        distinct_actions(bindings@),
    ensures
        errors@.len() == 0 ==> final(state).slots() == inserted_all(old(state).slots(), bindings@),
        extends(final(state).calls(), old(state).calls()),
        final(state).calls().skip(old(state).calls().len() as int).len() == bindings@.len(),
        forall|i: int|
            0 <= i < bindings@.len() ==> (#[trigger] final(state).calls().skip(
                old(state).calls().len() as int,
            )[i]) == ManagerCall::Register(
                bindings@[i].0,
                bindings@[i].1,
                match final(state).calls().skip(old(state).calls().len() as int)[i] {
                    ManagerCall::Register(_, _, o) => o,
                    _ => Ok(()),
                },
            ),
        errors@.len() == 0 <==> no_failure(final(state).calls().skip(old(state).calls().len() as int)),
{
    let ghost start = state.slots();
    let ghost c0 = state.calls();
    let mut errors: Vec<String> = Vec::new();
    let mut i: usize = 0;
    proof {
        lemma_inserted_none(start);
        assert(bindings@.take(0) =~= Seq::<(ShortcutAction, RegisteredBinding)>::empty());
        lemma_calls_start(c0);
    }
    while i < bindings.len()
        invariant
            i <= bindings@.len(),
            start.len() == 5,
            distinct_actions(bindings@),
            errors@.len() == 0 ==> state.slots() == inserted_all(start, bindings@.take(i as int)),
            extends(state.calls(), c0),
            state.calls().skip(c0.len() as int).len() == i,
            forall|m: int|
                0 <= m < i ==> (#[trigger] state.calls().skip(c0.len() as int)[m])
                    == ManagerCall::Register(
                    bindings@[m].0,
                    bindings@[m].1,
                    match state.calls().skip(c0.len() as int)[m] {
                        ManagerCall::Register(_, _, o) => o,
                        _ => Ok(()),
                    },
                ),
            errors@.len() == 0 <==> no_failure(state.calls().skip(c0.len() as int)),
        decreases bindings@.len() - i,
    {
        let action = bindings[i].0;
        let binding = bindings[i].1.clone();
        proof {
            lemma_inserted_step(start, bindings@, i as int);
        }
        let ghost before_calls = state.calls();
        let outcome = state.register_on(backend, action, &binding);
        proof {
            let call = ManagerCall::Register(action, binding, outcome);
            lemma_calls_push(c0, before_calls, state.calls(), call);
        }
        match outcome {
            Ok(()) => {
                state.insert(action, binding);
            },
            Err(error) => {
                let mut message = concat_str("failed to restore ", action_name(action));
                message.append(" shortcut `");
                message.append(binding.text.as_str());
                message.append("`: ");
                message.append(error.as_str());
                errors.push(message);
            },
        }
        i = i + 1;
    }
    assert(bindings@.take(bindings@.len() as int) =~= bindings@);
    errors
}

/// Unregisters the bindings of the list, last first, collecting what fails;
/// each binding that unregisters empties its action's slot.
fn remove_bindings<B: RegistrationBackend>(
    backend: &B,
    state: &mut ShortcutManagerState,
    bindings: &Vec<(ShortcutAction, RegisteredBinding)>,
) -> (errors: Vec<String>)
    ensures
        errors@.len() == 0 ==> final(state).slots() == removed_all(old(state).slots(), bindings@),
        extends(final(state).calls(), old(state).calls()),
        final(state).calls().skip(old(state).calls().len() as int).len() == bindings@.len(),
        forall|i: int|
            0 <= i < bindings@.len() ==> (#[trigger] final(state).calls().skip(
                old(state).calls().len() as int,
            )[i]) == ManagerCall::Unregister(
                bindings@[bindings@.len() - 1 - i].1,
                match final(state).calls().skip(old(state).calls().len() as int)[i] {
                    ManagerCall::Unregister(_, o) => o,
                    _ => Ok(()),
                },
            ),
        errors@.len() == 0 <==> no_failure(final(state).calls().skip(old(state).calls().len() as int)),
{
    let ghost start = state.slots();
    let ghost c0 = state.calls();
    let mut errors: Vec<String> = Vec::new();
    let mut i: usize = bindings.len();
    proof {
        assert(bindings@.take(bindings@.len() as int) =~= bindings@);
        lemma_calls_start(c0);
    }
    while i > 0
        invariant
            i <= bindings@.len(),
            start.len() == 5,
            errors@.len() == 0 ==> removed_all(state.slots(), bindings@.take(i as int))
                == removed_all(start, bindings@),
            extends(state.calls(), c0),
            state.calls().skip(c0.len() as int).len() == bindings@.len() - i,
            forall|m: int|
                0 <= m < bindings@.len() - i ==> (#[trigger] state.calls().skip(c0.len() as int)[m])
                    == ManagerCall::Unregister(
                    bindings@[bindings@.len() - 1 - m].1,
                    match state.calls().skip(c0.len() as int)[m] {
                        ManagerCall::Unregister(_, o) => o,
                        _ => Ok(()),
                    },
                ),
            errors@.len() == 0 <==> no_failure(state.calls().skip(c0.len() as int)),
        decreases i,
    {
        let action = bindings[i - 1].0;
        let binding = &bindings[i - 1].1;
        let ghost before = state.slots();
        proof {
            lemma_removed_step(before, bindings@, i - 1);
        }
        let ghost before_calls = state.calls();
        let outcome = state.unregister_on(backend, binding);
        proof {
            let call = ManagerCall::Unregister(*binding, outcome);
            lemma_calls_push(c0, before_calls, state.calls(), call);
        }
        match outcome {
            Ok(()) => {
                state.take(action);
                proof {
                    lemma_removed_after_take(before, bindings@, (i - 1) as int);
                }
            },
            Err(error) => {
                let mut message = concat_str("failed to unregister ", action_name(action));
                message.append(" shortcut `");
                message.append(binding.text.as_str());
                message.append("` during rollback: ");
                message.append(error.as_str());
                errors.push(message);
            },
        }
        i = i - 1;
    }
    proof {
        lemma_inserted_none(state.slots());
        assert(bindings@.take(0) =~= Seq::<(ShortcutAction, RegisteredBinding)>::empty());
    }
    errors
}

/// Emptying the slot of binding `i` first changes nothing about emptying the
/// slots of the first `i + 1` bindings afterwards.
proof fn lemma_removed_after_take(
    slots: Seq<Option<RegisteredBinding>>,
    bindings: Seq<(ShortcutAction, RegisteredBinding)>,
    i: int,
)
    requires
        0 <= i < bindings.len(),
        slots.len() == 5,
    ensures
        removed_all(slots.update(action_index(bindings[i].0), None), bindings.take(i))
            == removed_all(slots, bindings.take(i + 1)),
{
    let k0 = action_index(bindings[i].0);
    let t = slots.update(k0, None);
    lemma_removed_step(slots, bindings, i);
    let a = bindings.take(i);
    assert forall|k: int| 0 <= k < 5 implies #[trigger] removed_all(t, a)[k] == removed_all(
        slots,
        a,
    ).update(k0, None)[k] by {
    }
    assert(removed_all(t, a) =~= removed_all(slots, a).update(k0, None));
}

/// Every slot is empty.
pub open spec fn no_slots() -> Seq<Option<RegisteredBinding>> {
    seq![
        None::<RegisteredBinding>,
        None::<RegisteredBinding>,
        None::<RegisteredBinding>,
        None::<RegisteredBinding>,
        None::<RegisteredBinding>,
    ]
}

/// The message part that reports a failed single-shortcut rollback step.
pub open spec fn restore_failed_note() -> Seq<char> {
    "; restoring the previous shortcut also failed: "@
}

/// The message part that reports a failed unregistration during rollback.
pub open spec fn unregister_failed_note() -> Seq<char> {
    "; unregistering the new shortcut during rollback also failed: "@
}

/// The message part that reports an incomplete multi-shortcut rollback.
pub open spec fn incomplete_note() -> Seq<char> {
    "; rollback was incomplete: "@
}

/// One more call after `c0`.
proof fn lemma_calls_push(
    c0: Seq<ManagerCall>,
    before: Seq<ManagerCall>,
    now: Seq<ManagerCall>,
    call: ManagerCall,
)
    requires
        extends(before, c0),
        now == before.push(call),
    ensures
        extends(now, c0),
        now.skip(c0.len() as int) == before.skip(c0.len() as int).push(call),
        no_failure(now.skip(c0.len() as int)) == (no_failure(before.skip(c0.len() as int))
            && !call_failed(call)),
{
    assert(now.take(c0.len() as int) =~= before.take(c0.len() as int));
    let made = before.skip(c0.len() as int);
    assert(now.skip(c0.len() as int) =~= made.push(call));
    if no_failure(made.push(call)) {
        assert forall|i: int| 0 <= i < made.len() implies !call_failed(#[trigger] made[i]) by {
            assert(made.push(call)[i] == made[i]);
        }
        assert(made.push(call)[made.len() as int] == call);
    }
}

/// No calls after `c0` yet.
proof fn lemma_calls_start(c0: Seq<ManagerCall>)
    ensures
        extends(c0, c0),
        c0.skip(c0.len() as int) == Seq::<ManagerCall>::empty(),
        no_failure(Seq::<ManagerCall>::empty()),
{
    assert(c0.take(c0.len() as int) =~= c0);
    assert(c0.skip(c0.len() as int) =~= Seq::<ManagerCall>::empty());
}

/// Calls appended after `before`.
proof fn lemma_calls_grow(before: Seq<ManagerCall>, added: Seq<ManagerCall>)
    ensures
        extends(before + added, before),
        (before + added).skip(before.len() as int) == added,
{
    assert((before + added).take(before.len() as int) =~= before);
    assert((before + added).skip(before.len() as int) =~= added);
}

/// The calls after `c0` when `after` extends `c0 + pre`.
proof fn lemma_calls_chain(c0: Seq<ManagerCall>, pre: Seq<ManagerCall>, after: Seq<ManagerCall>)
    requires
        extends(after, c0 + pre),
    ensures
        extends(after, c0),
        after.skip(c0.len() as int) == pre + after.skip((c0 + pre).len() as int),
{
    assert(after.take(c0.len() as int) =~= (c0 + pre).take(c0.len() as int));
    assert((c0 + pre).take(c0.len() as int) =~= c0);
    assert(after.skip(c0.len() as int) =~= pre + after.skip((c0 + pre).len() as int)) by {
        assert forall|i: int| 0 <= i < pre.len() implies after.skip(c0.len() as int)[i] == pre[i] by {
            assert(after[c0.len() + i] == after.take((c0 + pre).len() as int)[c0.len() + i]);
        }
    }
}

/// The suffixes of `pre + rest` that the update run reads.
proof fn lemma_update_run_tail(pre: Seq<ManagerCall>, rest: Seq<ManagerCall>)
    ensures
        forall|n: int| 0 <= n <= pre.len() ==> #[trigger] (pre + rest).skip(n) == pre.skip(n) + rest,
{
    assert forall|n: int| 0 <= n <= pre.len() implies #[trigger] (pre + rest).skip(n) == pre.skip(n)
        + rest by {
        assert((pre + rest).skip(n) =~= pre.skip(n) + rest);
    }
}

fn registration_failure_with_rollback<B: RegistrationBackend>(
    backend: &B,
    state: &mut ShortcutManagerState,
    action: ShortcutAction,
    old_binding: Option<RegisteredBinding>,
    error: String,
) -> (r: String)
    requires
        old(state).slots()[action_index(action)] is None,
    ensures
        final(state).slots() == old(state).slots().update(action_index(action), old_binding) || (
        final(state).slots() == old(state).slots() && mentions(r@, restore_failed_note())),
        extends(final(state).calls(), old(state).calls()),
        restore_previous_run(
            old(state).slots(),
            action,
            old_binding,
            "failed to register the new "@ + spec_field_name(action) + " shortcut: "@ + error@,
            final(state).calls().skip(old(state).calls().len() as int),
            final(state).slots(),
            r@,
        ),
{
    let ghost c0 = state.calls();
    let mut primary = concat_str("failed to register the new ", action_name(action));
    primary.append(" shortcut: ");
    primary.append(error.as_str());
    match old_binding {
        None => {
            assert(old(state).slots().update(action_index(action), None) =~= old(state).slots());
            proof {
                assert(state.calls() =~= c0 + Seq::<ManagerCall>::empty());
                lemma_calls_grow(c0, Seq::<ManagerCall>::empty());
            }
            primary
        },
        Some(old_binding) => {
            let outcome = state.register_on(backend, action, &old_binding);
            proof {
                let call = ManagerCall::Register(action, old_binding, outcome);
                assert(state.calls() =~= c0 + seq![call]);
                lemma_calls_grow(c0, seq![call]);
            }
            match outcome {
                Ok(()) => {
                    state.insert(action, old_binding);
                    primary.append("; the previous shortcut was restored");
                    primary
                },
                Err(rollback_error) => {
                    let ghost p = primary@;
                    primary.append("; restoring the previous shortcut also failed: ");
                    primary.append(rollback_error.as_str());
                    proof {
                        lemma_mentions_middle(p, restore_failed_note(), rollback_error@);
                    }
                    primary
                },
            }
        },
    }
}

fn persistence_failure_with_rollback<B: RegistrationBackend>(
    backend: &B,
    state: &mut ShortcutManagerState,
    action: ShortcutAction,
    new_binding: &RegisteredBinding,
    old_binding: Option<RegisteredBinding>,
    error: String,
) -> (r: String)
    requires
        old(state).slots()[action_index(action)] == Some(*new_binding),
    ensures
        final(state).slots().len() == 5,
        forall|k: int|
            0 <= k < 5 && k != action_index(action) ==> #[trigger] final(state).slots()[k] == old(state).slots()[k],
        final(state).slots() == old(state).slots().update(action_index(action), old_binding)
            || mentions(r@, restore_failed_note()) || mentions(r@, unregister_failed_note()),
        extends(final(state).calls(), old(state).calls()),
        persist_failure_run(
            old(state).slots(),
            action,
            *new_binding,
            old_binding,
            "failed to persist shortcut settings: "@ + error@,
            final(state).calls().skip(old(state).calls().len() as int),
            final(state).slots(),
            r@,
        ),
{
    let ghost c0 = state.calls();
    let mut primary = String::from_str("failed to persist shortcut settings: ");
    primary.append(error.as_str());
    let removed = state.unregister_on(backend, new_binding);
    let ghost first = ManagerCall::Unregister(*new_binding, removed);
    proof {
        assert(state.calls() =~= c0 + seq![first]);
        lemma_calls_grow(c0, seq![first]);
    }
    match removed {
        Err(rollback_error) => {
            let ghost p = primary@;
            primary.append("; unregistering the new shortcut during rollback also failed: ");
            primary.append(rollback_error.as_str());
            proof {
                lemma_mentions_middle(p, unregister_failed_note(), rollback_error@);
            }
            return primary;
        },
        Ok(()) => {},
    }
    state.take(action);
    match old_binding {
        None => {
            proof {
                assert(seq![first].skip(1) =~= Seq::<ManagerCall>::empty());
            }
            primary
        },
        Some(old_binding) => {
            let outcome = state.register_on(backend, action, &old_binding);
            proof {
                let call = ManagerCall::Register(action, old_binding, outcome);
                assert(state.calls() =~= c0 + seq![first, call]);
                lemma_calls_grow(c0, seq![first, call]);
                assert(seq![first, call].skip(1) =~= seq![call]);
            }
            match outcome {
                Ok(()) => {
                    state.insert(action, old_binding);
                    primary.append("; the previous shortcut was restored");
                    primary
                },
                Err(rollback_error) => {
                    let ghost p = primary@;
                    primary.append("; restoring the previous shortcut also failed: ");
                    primary.append(rollback_error.as_str());
                    proof {
                        lemma_mentions_middle(p, restore_failed_note(), rollback_error@);
                    }
                    primary
                },
            }
        },
    }
}


// ---------------------------------------------------------------------------
// The calls of a shortcut change
// ---------------------------------------------------------------------------

/// `after` begins with `before`.
pub open spec fn extends(after: Seq<ManagerCall>, before: Seq<ManagerCall>) -> bool {
    after.len() >= before.len() && after.take(before.len() as int) == before
}

/// `u` is `s` with the shortcut at position `k` set to `t`.
pub open spec fn with_shortcut(u: AppSettings, s: AppSettings, k: int, t: Seq<char>) -> bool {
    &&& u.schema_version == s.schema_version
    &&& u.application == s.application
    &&& u.shortcuts.texts() == s.shortcuts.texts().update(k, t)
}

/// The first problem of a shortcut set: the settings rules, then the hotkey
/// parser's.
pub open spec fn texts_problem(texts: Seq<Seq<char>>) -> Option<Seq<char>> {
    match shortcut_problem(texts, 0) {
        Some(m) => Some(m),
        None => binding_problem(texts, 0),
    }
}

/// The error `r` holds, if it is one.
pub open spec fn error_text(r: Result<AppSettings, String>) -> Option<Seq<char>> {
    match r {
        Ok(_) => None,
        Err(e) => Some(e@),
    }
}

/// After a failure with message `primary`, the previous binding `old` of
/// `action` (if any) is registered again: the calls `c` are that one
/// registration, the slots become `after`, and the message becomes `msg`.
pub open spec fn restore_previous_run(
    slots: Seq<Option<RegisteredBinding>>,
    action: ShortcutAction,
    old: Option<RegisteredBinding>,
    primary: Seq<char>,
    c: Seq<ManagerCall>,
    after: Seq<Option<RegisteredBinding>>,
    msg: Seq<char>,
) -> bool {
    match old {
        None => c.len() == 0 && after == slots && msg == primary,
        Some(ob) => c.len() == 1 && match c[0] {
            ManagerCall::Register(a, b, o) => a == action && b == ob && match o {
                Ok(()) => after == slots.update(action_index(action), Some(ob)) && msg == primary
                    + "; the previous shortcut was restored"@,
                Err(e) => after == slots && msg == primary + restore_failed_note() + e@,
            },
            _ => false,
        },
    }
}

/// After a failed write with message `primary`, the new binding `nb` of
/// `action` is unregistered and the previous binding `old` registered again.
pub open spec fn persist_failure_run(
    slots: Seq<Option<RegisteredBinding>>,
    action: ShortcutAction,
    nb: RegisteredBinding,
    old: Option<RegisteredBinding>,
    primary: Seq<char>,
    c: Seq<ManagerCall>,
    after: Seq<Option<RegisteredBinding>>,
    msg: Seq<char>,
) -> bool {
    c.len() >= 1 && match c[0] {
        ManagerCall::Unregister(b, o) => b == nb && match o {
            Err(e) => c.len() == 1 && after == slots && msg == primary + unregister_failed_note()
                + e@,
            Ok(()) => restore_previous_run(
                slots.update(action_index(action), None),
                action,
                old,
                primary,
                c.skip(1),
                after,
                msg,
            ),
        },
        _ => false,
    }
}

/// After the new binding `nb` of `action` is registered (slots `slots`),
/// the settings `s` with the new text `t` are written; a failed write
/// unregisters `nb` and registers `old` again.
pub open spec fn write_run(
    slots: Seq<Option<RegisteredBinding>>,
    action: ShortcutAction,
    s: AppSettings,
    t: Seq<char>,
    nb: RegisteredBinding,
    old: Option<RegisteredBinding>,
    c: Seq<ManagerCall>,
    after: Seq<Option<RegisteredBinding>>,
    r: Result<AppSettings, String>,
) -> bool {
    c.len() >= 1 && match c[0] {
        ManagerCall::WriteSettings(u, o) => with_shortcut(u, s, action_index(action), t) && match o {
            Ok(()) => c.len() == 1 && after == slots && r == Ok::<AppSettings, String>(u),
            Err(e) => error_text(r) is Some && persist_failure_run(
                slots,
                action,
                nb,
                old,
                "failed to persist shortcut settings: "@ + e@,
                c.skip(1),
                after,
                error_text(r)->0,
            ),
        },
        _ => false,
    }
}

/// The new binding of `action` for the trimmed text `t` is registered
/// (the slot of `action` being empty in `slots`), then the settings are
/// written.
pub open spec fn register_new_run(
    slots: Seq<Option<RegisteredBinding>>,
    action: ShortcutAction,
    s: AppSettings,
    t: Seq<char>,
    old: Option<RegisteredBinding>,
    c: Seq<ManagerCall>,
    after: Seq<Option<RegisteredBinding>>,
    r: Result<AppSettings, String>,
) -> bool {
    c.len() >= 1 && match c[0] {
        ManagerCall::Register(a, nb, o) => {
            &&& a == action
            &&& nb.text@ == t
            &&& spec_parse_shortcut(action, t) == Ok::<(u32, Seq<char>), Seq<char>>(
                (nb.shortcut.id, nb.shortcut.key@),
            )
            &&& match o {
                Err(e) => error_text(r) is Some && restore_previous_run(
                    slots,
                    action,
                    old,
                    "failed to register the new "@ + spec_field_name(action) + " shortcut: "@ + e@,
                    c.skip(1),
                    after,
                    error_text(r)->0,
                ),
                Ok(()) => write_run(
                    slots.update(action_index(action), Some(nb)),
                    action,
                    s,
                    t,
                    nb,
                    old,
                    c.skip(1),
                    after,
                    r,
                ),
            }
        },
        _ => false,
    }
}

/// What changing the shortcut of `action` to `shortcut` does, given what
/// each call returned: read the settings; refuse a set with a problem
/// before any backend call; unregister the previous binding; register the
/// new one; write the changed settings; and, when a step fails, put the
/// previous binding back. `c` are the calls made, `after` the slots left
/// and `r` the result.
pub open spec fn update_run(
    slots: Seq<Option<RegisteredBinding>>,
    action: ShortcutAction,
    shortcut: Seq<char>,
    c: Seq<ManagerCall>,
    after: Seq<Option<RegisteredBinding>>,
    r: Result<AppSettings, String>,
) -> bool {
    let k = action_index(action);
    let t = trim(shortcut);
    c.len() >= 1 && match c[0] {
        ManagerCall::ReadSettings(s) => match texts_problem(s.shortcuts.texts().update(k, t)) {
            Some(m) => c.len() == 1 && after == slots && error_text(r) == Some(m),
            None => match slots[k] {
                None => register_new_run(slots, action, s, t, None, c.skip(1), after, r),
                Some(ob) => c.len() >= 2 && match c[1] {
                    ManagerCall::Unregister(b, o) => b == ob && match o {
                        Err(e) => c.len() == 2 && after == slots && error_text(r) == Some(
                            "failed to unregister the previous "@ + spec_field_name(action)
                                + " shortcut: "@ + e@,
                        ),
                        Ok(()) => register_new_run(
                            slots.update(k, None),
                            action,
                            s,
                            t,
                            Some(ob),
                            c.skip(2),
                            after,
                            r,
                        ),
                    },
                    _ => false,
                },
            },
        },
        _ => false,
    }
}

/// A rollback message mentions an incomplete rollback whenever a step of it
/// failed.
proof fn lemma_rollback_message(primary: Seq<char>, errors: Seq<Seq<char>>)
    requires
        errors.len() > 0,
    ensures
        mentions(rollback_message(primary, errors), incomplete_note()),
{
    lemma_mentions_middle(primary, incomplete_note(), join_seqs(errors, "; "@));
}

/// The action at an action's own position is that action.
proof fn lemma_action_index_roundtrip(a: ShortcutAction)
    ensures
        0 <= action_index(a) < 5,
        action_at(action_index(a)) == a,
{
}

/// The parse problem at position `k` stops the scan from any earlier
/// position.
proof fn lemma_binding_problem_reaches(texts: Seq<Seq<char>>, i: int, k: int)
    requires
        0 <= i <= k < texts.len(),
        spec_parse_shortcut(action_at(k), trim(texts[k])) is Err,
    ensures
        binding_problem(texts, i) is Some,
    decreases k - i,
{
    if i < k {
        match spec_parse_shortcut(action_at(i), trim(texts[i])) {
            Err(_) => {},
            Ok(p) => {
                if find_id(texts, p.0, 0, i) is None {
                    lemma_binding_problem_reaches(texts, i + 1, k);
                }
            },
        }
    }
}

/// A shortcut set in which one shortcut does not parse cannot be
/// registered.
proof fn lemma_unparsable_blocks_registration(s: ShortcutSettings, k: int)
    requires
        0 <= k < 5,
        spec_parse_shortcut(action_at(k), trim(s.texts()[k])) is Err,
    ensures
        registration_problem(s) is Some,
{
    if s.problem() is None {
        lemma_binding_problem_reaches(s.texts(), 0, k);
    }
}

/// The hotkey identifiers and actions of the shortcuts before position `i`
/// that parse, in order.
pub open spec fn parsed_before(texts: Seq<Seq<char>>, i: int) -> Seq<(u32, ShortcutAction)>
    decreases i,
{
    if i <= 0 {
        Seq::empty()
    } else {
        let earlier = parsed_before(texts, i - 1);
        match spec_parse_shortcut(action_at(i - 1), trim(texts[i - 1])) {
            Ok(p) => earlier.push((p.0, action_at(i - 1))),
            Err(_) => earlier,
        }
    }
}

/// The most recent action in `entries` whose hotkey is `id`.
pub open spec fn last_action_with_id(entries: Seq<(u32, ShortcutAction)>, id: u32) -> Option<
    ShortcutAction,
>
    decreases entries.len(),
{
    if entries.len() == 0 {
        None
    } else if entries.last().0 == id {
        Some(entries.last().1)
    } else {
        last_action_with_id(entries.drop_last(), id)
    }
}

/// Why the shortcut at position `k` is not offered to the backend at
/// startup: it does not parse, or it parses to the hotkey of an earlier
/// shortcut (the message names the most recent such action).
pub open spec fn startup_problem(texts: Seq<Seq<char>>, k: int) -> Option<Seq<char>> {
    match spec_parse_shortcut(action_at(k), trim(texts[k])) {
        Err(m) => Some(m),
        Ok(p) => match last_action_with_id(parsed_before(texts, k), p.0) {
            Some(a) => Some(duplicate_message(a, action_at(k))),
            None => None,
        },
    }
}

/// The start of the message for a shortcut that the backend refused.
pub open spec fn register_failure_prefix(a: ShortcutAction) -> Seq<char> {
    "failed to register "@ + spec_field_name(a) + " shortcut: "@
}

/// The call asked the backend to register, for the action of position
/// `k`, the binding that validation builds for it.
pub open spec fn registers_position(texts: Seq<Seq<char>>, call: ManagerCall, k: int) -> bool {
    match call {
        ManagerCall::Register(a, b, _) => action_index(a) == k && is_binding_for(texts, k, b),
        _ => false,
    }
}

/// The call registered `b` for position `k` successfully.
pub open spec fn accepted_at(call: ManagerCall, k: int, b: RegisteredBinding) -> bool {
    match call {
        ManagerCall::Register(a, registered, o) => action_index(a) == k && registered == b
            && o is Ok,
        _ => false,
    }
}

/// The call for position `k` was refused, and `msg` reports that refusal
/// with the backend's own error.
pub open spec fn refused_at(call: ManagerCall, k: int, msg: Seq<char>) -> bool {
    match call {
        ManagerCall::Register(a, _, o) => action_index(a) == k && match o {
            Err(e) => msg == register_failure_prefix(a) + e@,
            Ok(()) => false,
        },
        _ => false,
    }
}

/// The number of calls of `c` that registered successfully.
pub open spec fn accepted_count(c: Seq<ManagerCall>) -> nat
    decreases c.len(),
{
    if c.len() == 0 {
        0
    } else {
        accepted_count(c.drop_last()) + match c.last() {
            ManagerCall::Register(_, _, o) => if o is Ok {
                1nat
            } else {
                0nat
            },
            _ => 0nat,
        }
    }
}

/// The failure reported for position `k` agrees with what happened there:
/// the library's problem, or the backend's refusal of the call `calls`
/// made for it, with the backend's error.
pub open spec fn failure_explains(
    texts: Seq<Seq<char>>,
    calls: Seq<ManagerCall>,
    f: ShortcutRegistrationFailure,
) -> bool {
    let k = action_index(f.action);
    &&& f.shortcut@ == trim(texts[k])
    &&& match startup_problem(texts, k) {
        Some(m) => f.error@ == m,
        None => exists|j: int| 0 <= j < calls.len() && #[trigger] refused_at(calls[j], k, f.error@),
    }
}

/// Some failure of the list concerns position `k`.
pub open spec fn reports_failure(failures: Seq<ShortcutRegistrationFailure>, k: int) -> bool {
    exists|j: int| 0 <= j < failures.len() && action_index(#[trigger] failures[j].action) == k
}

/// Some call of `c` registered `b` for position `k` successfully.
pub open spec fn accepted_somewhere(c: Seq<ManagerCall>, k: int, b: RegisteredBinding) -> bool {
    exists|j: int| 0 <= j < c.len() && #[trigger] accepted_at(c[j], k, b)
}

/// The call registers, for a position before `n` whose shortcut neither
/// fails to parse nor duplicates an earlier one, the binding that
/// validation builds for it.
pub open spec fn fits_call(texts: Seq<Seq<char>>, call: ManagerCall, n: int) -> bool {
    exists|k: int|
        0 <= k < n && startup_problem(texts, k) is None && #[trigger] registers_position(
            texts,
            call,
            k,
        )
}

/// Every call of startup registration registers a position before `n`
/// whose shortcut neither fails to parse nor duplicates an earlier one.
pub open spec fn startup_calls_fit(texts: Seq<Seq<char>>, c: Seq<ManagerCall>, n: int) -> bool {
    forall|j: int| 0 <= j < c.len() ==> #[trigger] fits_call(texts, c[j], n)
}

/// The position a registration call is for.
pub open spec fn register_position(call: ManagerCall) -> int {
    match call {
        ManagerCall::Register(a, _, _) => action_index(a),
        _ => -1,
    }
}

/// The calls register strictly increasing positions: at most one call per
/// position, in `ALL` order.
pub open spec fn positions_increase(c: Seq<ManagerCall>) -> bool {
    forall|a: int, b: int|
        0 <= a < b < c.len() ==> register_position(#[trigger] c[a]) < register_position(
            #[trigger] c[b],
        )
}

/// A call for position `n` after calls that fit the positions before `n`
/// keeps the positions increasing.
proof fn lemma_positions_push(texts: Seq<Seq<char>>, c: Seq<ManagerCall>, x: ManagerCall, n: int)
    requires
        positions_increase(c),
        startup_calls_fit(texts, c, n),
        register_position(x) == n,
    ensures
        positions_increase(c.push(x)),
{
    let q = c.push(x);
    assert forall|a: int, b: int| 0 <= a < b < q.len() implies register_position(#[trigger] q[a])
        < register_position(#[trigger] q[b]) by {
        assert(q[a] == c[a]);
        assert(fits_call(texts, c[a], n));
        if b < c.len() {
            assert(q[b] == c[b]);
        }
    }
}

proof fn lemma_accepted_count_push(c: Seq<ManagerCall>, x: ManagerCall)
    ensures
        accepted_count(c.push(x)) == accepted_count(c) + match x {
            ManagerCall::Register(_, _, o) => if o is Ok {
                1nat
            } else {
                0nat
            },
            _ => 0nat,
        },
{
    assert(c.push(x).drop_last() =~= c);
}

/// Growing the calls keeps the facts about earlier calls.
proof fn lemma_startup_push(
    texts: Seq<Seq<char>>,
    c: Seq<ManagerCall>,
    x: ManagerCall,
    failures: Seq<ShortcutRegistrationFailure>,
    n: int,
)
    ensures
        forall|j: int|
            0 <= j < failures.len() && failure_explains(texts, c, #[trigger] failures[j])
                ==> failure_explains(texts, c.push(x), failures[j]),
        forall|k: int, b: RegisteredBinding|
            #[trigger] accepted_somewhere(c, k, b) ==> accepted_somewhere(c.push(x), k, b),
        startup_calls_fit(texts, c, n) ==> startup_calls_fit(texts, c, n + 1),
{
    let q = c.push(x);
    assert forall|j: int|
        0 <= j < failures.len() && failure_explains(texts, c, #[trigger] failures[j])
            implies failure_explains(texts, q, failures[j]) by {
        let f = failures[j];
        let k = action_index(f.action);
        if startup_problem(texts, k) is None {
            let w = choose|w: int| 0 <= w < c.len() && #[trigger] refused_at(c[w], k, f.error@);
            assert(q[w] == c[w]);
        }
    }
    assert forall|k: int, b: RegisteredBinding| #[trigger] accepted_somewhere(c, k, b)
        implies accepted_somewhere(q, k, b) by {
        let w = choose|w: int| 0 <= w < c.len() && #[trigger] accepted_at(c[w], k, b);
        assert(q[w] == c[w]);
    }
    if startup_calls_fit(texts, c, n) {
        lemma_fit_grow(texts, c, n);
    }
}

/// A registration call for position `n` extends the fitting calls.
proof fn lemma_startup_call(texts: Seq<Seq<char>>, c: Seq<ManagerCall>, x: ManagerCall, n: int)
    requires
        startup_calls_fit(texts, c, n),
        startup_problem(texts, n) is None,
        registers_position(texts, x, n),
    ensures
        startup_calls_fit(texts, c.push(x), n + 1),
{
    let q = c.push(x);
    assert forall|j: int| 0 <= j < q.len() implies #[trigger] fits_call(texts, q[j], n + 1) by {
        if j < c.len() {
            assert(q[j] == c[j]);
            assert(fits_call(texts, c[j], n));
        } else {
            assert(q[j] == x);
            assert(registers_position(texts, q[j], n));
        }
    }
}

/// Position `k` ended registered: it has no library problem, and its slot
/// holds the binding that validation builds for it, which a call of
/// `calls` registered successfully.
pub open spec fn settled(
    texts: Seq<Seq<char>>,
    calls: Seq<ManagerCall>,
    slots: Seq<Option<RegisteredBinding>>,
    k: int,
) -> bool {
    &&& startup_problem(texts, k) is None
    &&& slots[k] matches Some(b) && is_binding_for(texts, k, b) && accepted_somewhere(calls, k, b)
}

proof fn lemma_fit_grow(texts: Seq<Seq<char>>, c: Seq<ManagerCall>, n: int)
    requires
        startup_calls_fit(texts, c, n),
    ensures
        startup_calls_fit(texts, c, n + 1),
{
    assert forall|j: int| 0 <= j < c.len() implies #[trigger] fits_call(texts, c[j], n + 1) by {
        assert(fits_call(texts, c[j], n));
    }
}

proof fn lemma_settled_grow(
    texts: Seq<Seq<char>>,
    c: Seq<ManagerCall>,
    x: ManagerCall,
    slots: Seq<Option<RegisteredBinding>>,
    i: int,
    failures: Seq<ShortcutRegistrationFailure>,
)
    requires
        forall|k: int|
            0 <= k < i && !reports_failure(failures, k) ==> #[trigger] settled(texts, c, slots, k),
    ensures
        forall|k: int|
            0 <= k < i && !reports_failure(failures, k) ==> #[trigger] settled(
                texts,
                c.push(x),
                slots,
                k,
            ),
{
    assert forall|k: int| 0 <= k < i && !reports_failure(failures, k) implies #[trigger] settled(
        texts,
        c.push(x),
        slots,
        k,
    ) by {
        assert(settled(texts, c, slots, k));
        let b = slots[k]->0;
        let w = choose|w: int| 0 <= w < c.len() && #[trigger] accepted_at(c[w], k, b);
        assert(c.push(x)[w] == c[w]);
    }
}

proof fn lemma_failure_pushed(
    texts: Seq<Seq<char>>,
    calls: Seq<ManagerCall>,
    before: Seq<ShortcutRegistrationFailure>,
    after: Seq<ShortcutRegistrationFailure>,
    slots: Seq<Option<RegisteredBinding>>,
    i: int,
)
    requires
        after.len() == before.len() + 1,
        forall|j: int| 0 <= j < before.len() ==> after[j] == before[j],
        action_index(after[before.len() as int].action) == i,
        failure_explains(texts, calls, after[before.len() as int]),
        forall|j: int| 0 <= j < before.len() ==> failure_explains(texts, calls, #[trigger] before[j]),
        forall|k: int|
            0 <= k < i && !reports_failure(before, k) ==> #[trigger] settled(texts, calls, slots, k),
    ensures
        forall|j: int| 0 <= j < after.len() ==> failure_explains(texts, calls, #[trigger] after[j]),
        forall|k: int|
            0 <= k < i + 1 && !reports_failure(after, k) ==> #[trigger] settled(
                texts,
                calls,
                slots,
                k,
            ),
{
    assert forall|j: int| 0 <= j < after.len() implies failure_explains(texts, calls, #[trigger] after[j]) by {
        if j < before.len() {
            assert(after[j] == before[j]);
        }
    }
    assert forall|k: int| 0 <= k < i + 1 && !reports_failure(after, k) implies #[trigger] settled(
        texts,
        calls,
        slots,
        k,
    ) by {
        if k == i {
            assert(action_index(after[before.len() as int].action) == k);
        } else if reports_failure(before, k) {
            let w = choose|w: int| 0 <= w < before.len() && action_index(#[trigger] before[w].action) == k;
            assert(after[w] == before[w]);
        }
    }
}

impl ShortcutManager {
    /// Registers each configured shortcut on its own. A shortcut that does
    /// not parse, duplicates an earlier one, or that the backend refuses is
    /// reported, and the others are still registered.
    pub fn register_startup_with<B: RegistrationBackend>(
        &mut self,
        backend: &B,
        shortcuts: &ShortcutSettings,
    ) -> (report: StartupRegistrationReport)
        ensures
            report.registered + report.failures@.len() == 5,
            extends(final(self).calls(), old(self).calls()),
            report.registered == accepted_count(
                final(self).calls().skip(old(self).calls().len() as int),
            ),
            startup_calls_fit(
                shortcuts.texts(),
                final(self).calls().skip(old(self).calls().len() as int),
                5,
            ),
            positions_increase(final(self).calls().skip(old(self).calls().len() as int)),
            forall|a: int, b: int|
                0 <= a < b < report.failures@.len() ==> action_index(
                    (#[trigger] report.failures@[a]).action,
                ) < action_index((#[trigger] report.failures@[b]).action),
            forall|j: int|
                0 <= j < report.failures@.len() ==> failure_explains(
                    shortcuts.texts(),
                    final(self).calls().skip(old(self).calls().len() as int),
                    #[trigger] report.failures@[j],
                ) && final(self).registrations()[action_index(report.failures@[j].action)]
                    == old(self).registrations()[action_index(report.failures@[j].action)],
            forall|k: int|
                0 <= k < 5 && !reports_failure(report.failures@, k) ==> #[trigger] settled(
                    shortcuts.texts(),
                    final(self).calls().skip(old(self).calls().len() as int),
                    final(self).registrations(),
                    k,
                ),
            forall|k: int|
                0 <= k < 5 ==> #[trigger] final(self).registrations()[k] == old(
                    self,
                ).registrations()[k] || (final(self).registrations()[k] matches Some(b)
                    && is_binding_for(shortcuts.texts(), k, b)),
    {
        let ghost start = self.registrations();
        let ghost c0 = self.calls();
        let ghost texts = shortcuts.texts();
        let mut report = StartupRegistrationReport::default();
        let mut assigned: Vec<(u32, ShortcutAction)> = Vec::new();
        let mut i: usize = 0;
        proof {
            lemma_calls_start(c0);
        }
        while i < 5
            invariant
                i <= 5,
                texts == shortcuts.texts(),
                start.len() == 5,
                self.registrations().len() == 5,
                report.registered + report.failures@.len() == i,
                assigned@ == parsed_before(texts, i as int),
                extends(self.calls(), c0),
                report.registered == accepted_count(self.calls().skip(c0.len() as int)),
                startup_calls_fit(texts, self.calls().skip(c0.len() as int), i as int),
                positions_increase(self.calls().skip(c0.len() as int)),
                forall|a: int, b: int|
                    0 <= a < b < report.failures@.len() ==> action_index(
                        (#[trigger] report.failures@[a]).action,
                    ) < action_index((#[trigger] report.failures@[b]).action),
                forall|j: int|
                    0 <= j < report.failures@.len() ==> action_index(
                        (#[trigger] report.failures@[j]).action,
                    ) < i && failure_explains(texts, self.calls().skip(c0.len() as int), report.failures@[j])
                        && self.registrations()[action_index(report.failures@[j].action)]
                        == start[action_index(report.failures@[j].action)],
                forall|k: int|
                    0 <= k < i && !reports_failure(report.failures@, k) ==> #[trigger] settled(
                        texts,
                        self.calls().skip(c0.len() as int),
                        self.registrations(),
                        k,
                    ),
                forall|k: int| i <= k < 5 ==> #[trigger] self.registrations()[k] == start[k],
                forall|k: int|
                    0 <= k < 5 ==> #[trigger] self.registrations()[k] == start[k] || (
                    self.registrations()[k] matches Some(b) && is_binding_for(texts, k, b)),
            decreases 5 - i,
        {
            let ghost failures_before = report.failures@;
            let ghost slots_before = self.registrations();
            let ghost made = self.calls().skip(c0.len() as int);
            let action = ShortcutAction::at(i);
            let text = trim_str(shortcuts.get(action));
            assert(text@ == trim(texts[i as int]));
            assert(action_index(action) == i);
            proof {
                lemma_fit_grow(texts, made, i as int);
            }
            let shortcut = match parse_shortcut(action, text.as_str()) {
                Ok(shortcut) => shortcut,
                Err(error) => {
                    let failure = ShortcutRegistrationFailure { action, shortcut: text, error };
                    proof {
                        assert(failure_explains(texts, made, failure));
                    }
                    report.failures.push(failure);
                    proof {
                        assert(parsed_before(texts, i + 1) == parsed_before(texts, i as int));
                        lemma_failure_pushed(texts, made, failures_before, report.failures@, self.registrations(), i as int);
                        assert forall|a: int, b: int|
                            0 <= a < b < report.failures@.len() implies action_index(
                                (#[trigger] report.failures@[a]).action,
                            ) < action_index((#[trigger] report.failures@[b]).action) by {
                            if b < failures_before.len() {
                                assert(report.failures@[a] == failures_before[a]);
                                assert(report.failures@[b] == failures_before[b]);
                            } else {
                                assert(report.failures@[a] == failures_before[a]);
                            }
                        }
                    }
                    i = i + 1;
                    continue ;
                },
            };
            let ghost entries = assigned@;
            let mut previous: Option<ShortcutAction> = None;
            let mut j: usize = assigned.len();
            assert(entries.take(j as int) =~= entries);
            while j > 0
                invariant_except_break
                    previous is None,
                    last_action_with_id(entries, shortcut.id) == last_action_with_id(
                        entries.take(j as int),
                        shortcut.id,
                    ),
                invariant
                    j <= assigned@.len(),
                    assigned@ == entries,
                ensures
                    previous == last_action_with_id(entries, shortcut.id),
                decreases j,
            {
                assert(entries.take(j as int).drop_last() =~= entries.take(j - 1));
                if assigned[j - 1].0 == shortcut.id {
                    previous = Some(assigned[j - 1].1);
                    break;
                }
                j = j - 1;
            }
            assigned.push((shortcut.id, action));
            match previous {
                Some(previous) => {
                    let failure = ShortcutRegistrationFailure {
                        action,
                        shortcut: text,
                        error: duplicate_error(previous, action),
                    };
                    proof {
                        assert(failure_explains(texts, made, failure));
                    }
                    report.failures.push(failure);
                    proof {
                        lemma_failure_pushed(texts, made, failures_before, report.failures@, self.registrations(), i as int);
                        assert forall|a: int, b: int|
                            0 <= a < b < report.failures@.len() implies action_index(
                                (#[trigger] report.failures@[a]).action,
                            ) < action_index((#[trigger] report.failures@[b]).action) by {
                            if b < failures_before.len() {
                                assert(report.failures@[a] == failures_before[a]);
                                assert(report.failures@[b] == failures_before[b]);
                            } else {
                                assert(report.failures@[a] == failures_before[a]);
                            }
                        }
                    }
                },
                None => {
                    let binding = RegisteredBinding { text, shortcut };
                    let ghost before_calls = self.calls();
                    let outcome = self.state.register_on(backend, action, &binding);
                    let ghost call = ManagerCall::Register(action, binding, outcome);
                    proof {
                        lemma_calls_push(c0, before_calls, self.calls(), call);
                        lemma_accepted_count_push(made, call);
                        assert(startup_problem(texts, i as int) is None);
                        assert(is_binding_for(texts, i as int, binding));
                        assert(registers_position(texts, call, i as int));
                        lemma_startup_call(texts, made, call, i as int);
                        lemma_positions_push(texts, made, call, i as int);
                        lemma_startup_push(texts, made, call, failures_before, i as int);
                        lemma_settled_grow(texts, made, call, slots_before, i as int, failures_before);
                    }
                    match outcome {
                        Ok(()) => {
                            self.state.insert(action, binding);
                            report.registered = report.registered + 1;
                            proof {
                                assert(accepted_at(call, i as int, binding));
                                assert(made.push(call)[made.len() as int] == call);
                                assert(accepted_somewhere(made.push(call), i as int, binding));
                                assert forall|k: int|
                                    0 <= k < i + 1 && !reports_failure(report.failures@, k) implies #[trigger] settled(
                                        texts,
                                        made.push(call),
                                        self.registrations(),
                                        k,
                                    ) by {
                                    if k < i {
                                        assert(self.registrations()[k] == slots_before[k]);
                                        assert(settled(texts, made.push(call), slots_before, k));
                                    }
                                }
                            }
                        },
                        Err(error) => {
                            let mut message = concat_str("failed to register ", action_name(action));
                            message.append(" shortcut: ");
                            message.append(error.as_str());
                            let failure = ShortcutRegistrationFailure {
                                action,
                                shortcut: binding.text,
                                error: message,
                            };
                            proof {
                                let q = made.push(call);
                                assert(q[made.len() as int] == call);
                                assert(refused_at(q[made.len() as int], i as int, failure.error@));
                                assert(failure_explains(texts, q, failure));
                            }
                            report.failures.push(failure);
                            proof {
                                lemma_failure_pushed(texts, made.push(call), failures_before, report.failures@, self.registrations(), i as int);
                                assert forall|a: int, b: int|
                                    0 <= a < b < report.failures@.len() implies action_index(
                                        (#[trigger] report.failures@[a]).action,
                                    ) < action_index((#[trigger] report.failures@[b]).action) by {
                                    if b < failures_before.len() {
                                        assert(report.failures@[a] == failures_before[a]);
                                        assert(report.failures@[b] == failures_before[b]);
                                    } else {
                                        assert(report.failures@[a] == failures_before[a]);
                                    }
                                }
                            }
                        },
                    }
                },
            }
            i = i + 1;
        }
        report
    }

    /// Replaces the shortcut of one action and persists it only after the
    /// backend has registered it. A failure after the old shortcut was
    /// removed puts that exact registration back.
    pub fn update_shortcut_with<B: RegistrationBackend, P: SettingsPersistence>(
        &mut self,
        backend: &B,
        persistence: &P,
        action: ShortcutAction,
        shortcut: String,
    ) -> (r: Result<AppSettings, String>)
        ensures
            final(self).registrations().len() == 5,
            forall|k: int|
                0 <= k < 5 && k != action_index(action) ==> #[trigger] final(self).registrations()[k] == old(self).registrations()[k],
            r matches Ok(u) ==> {
                &&& u.shortcuts.text_of(action) == trim(shortcut@)
                &&& registration_problem(u.shortcuts) is None
                &&& final(self).registrations()[action_index(action)] matches Some(b)
                &&& b.text@ == trim(shortcut@)
                &&& spec_parse_shortcut(action, trim(shortcut@)) == Ok::<
                    (u32, Seq<char>),
                    Seq<char>,
                >((b.shortcut.id, b.shortcut.key@))
            },
            r matches Err(e) ==> final(self).registrations() == old(self).registrations() || mentions(
                e@,
                restore_failed_note(),
            ) || mentions(e@, unregister_failed_note()),
            spec_parse_shortcut(action, trim(shortcut@)) is Err ==> r is Err
                && final(self).registrations() == old(self).registrations(),
            extends(final(self).calls(), old(self).calls()),
            update_run(
                old(self).registrations(),
                action,
                shortcut@,
                final(self).calls().skip(old(self).calls().len() as int),
                final(self).registrations(),
                r,
            ),
    {
        let ghost start = self.registrations();
        let ghost c0 = self.calls();
        let ghost k0 = action_index(action);
        let current = self.state.read_settings(persistence);
        let ghost read = ManagerCall::ReadSettings(current);
        let mut updated = current.clone();
        let text = trim_str(shortcut.as_str());
        updated.shortcuts.set(action, text.clone());
        proof {
            lemma_action_index_roundtrip(action);
            lemma_trim_idempotent(shortcut@);
            if spec_parse_shortcut(action, trim(shortcut@)) is Err {
                lemma_unparsable_blocks_registration(updated.shortcuts, k0);
            }
            assert(updated.shortcuts.texts() == current.shortcuts.texts().update(k0, trim(shortcut@)));
            assert(texts_problem(updated.shortcuts.texts()) == registration_problem(updated.shortcuts));
        }
        match validate_shortcut_settings(&updated.shortcuts) {
            Err(e) => {
                proof {
                    assert(self.calls() =~= c0 + seq![read]);
                    lemma_calls_grow(c0, seq![read]);
                }
                return Err(e);
            },
            Ok(()) => {},
        }
        proof {
            if spec_parse_shortcut(action, trim(shortcut@)) is Err {
                lemma_unparsable_blocks_registration(updated.shortcuts, k0);
            }
        }
        let parsed = match parse_shortcut(action, text.as_str()) {
            Ok(parsed) => parsed,
            Err(e) => {
                return Err(e);
            },
        };
        let new_binding = RegisteredBinding { shortcut: parsed, text };
        let old_binding = self.state.take(action);
        let ghost mut pre = seq![read];
        match &old_binding {
            Some(old) => {
                let removed = self.state.unregister_on(backend, old);
                proof {
                    pre = seq![read, ManagerCall::Unregister(*old, removed)];
                    assert(self.calls() =~= c0 + pre);
                }
                match removed {
                    Err(error) => {
                        self.state.insert(action, old.clone());
                        assert(self.registrations() =~= start);
                        let mut message = concat_str(
                            "failed to unregister the previous ",
                            action_name(action),
                        );
                        message.append(" shortcut: ");
                        message.append(error.as_str());
                        proof {
                            lemma_calls_grow(c0, pre);
                        }
                        return Err(message);
                    },
                    Ok(()) => {},
                }
            },
            None => {
                assert(self.calls() =~= c0 + pre);
            },
        }
        let ghost slots_before_register = self.registrations();
        let registered = self.state.register_on(backend, action, &new_binding);
        let ghost reg_call = ManagerCall::Register(action, new_binding, registered);
        let ghost pre2 = pre.push(reg_call);
        assert(self.calls() =~= c0 + pre2);
        match registered {
            Err(error) => {
                let ghost mid = self.calls();
                let message = registration_failure_with_rollback(
                    backend,
                    &mut self.state,
                    action,
                    old_binding,
                    error,
                );
                proof {
                    lemma_calls_chain(c0, pre2, self.calls());
                    lemma_update_run_tail(pre2, self.calls().skip(mid.len() as int));
                }
                assert(start.update(k0, None).update(k0, start[k0]) =~= start);
                return Err(message);
            },
            Ok(()) => {},
        }
        self.state.insert(action, new_binding.clone());
        let ghost written = updated;
        let outcome = self.state.write_settings(persistence, updated.clone());
        let ghost write_call = ManagerCall::WriteSettings(written, outcome);
        let ghost pre3 = pre2.push(write_call);
        assert(self.calls() =~= c0 + pre3);
        match outcome {
            Err(error) => {
                let ghost mid = self.calls();
                let message = persistence_failure_with_rollback(
                    backend,
                    &mut self.state,
                    action,
                    &new_binding,
                    old_binding,
                    error,
                );
                proof {
                    lemma_calls_chain(c0, pre3, self.calls());
                    lemma_update_run_tail(pre3, self.calls().skip(mid.len() as int));
                }
                assert(start.update(k0, None).update(k0, Some(new_binding)).update(k0, start[k0])
                    =~= start);
                return Err(message);
            },
            Ok(()) => {},
        }
        proof {
            lemma_calls_grow(c0, pre3);
            lemma_update_run_tail(pre3, Seq::empty());
            assert(pre3 + Seq::<ManagerCall>::empty() =~= pre3);
        }
        Ok(updated)
    }
}

// ---------------------------------------------------------------------------
// The calls of restoring the defaults
// ---------------------------------------------------------------------------

/// `d` is `s` with every shortcut set to its default.
pub open spec fn with_default_shortcuts(d: AppSettings, s: AppSettings) -> bool {
    &&& d.schema_version == s.schema_version
    &&& d.application == s.application
    &&& d.shortcuts.texts() == default_shortcut_texts()
}

/// The call unregistered `b` successfully.
pub open spec fn unregisters(call: ManagerCall, b: RegisteredBinding) -> bool {
    match call {
        ManagerCall::Unregister(unregistered, o) => unregistered == b && o is Ok,
        _ => false,
    }
}

/// The call registered the default binding of position `k` successfully.
pub open spec fn registers_default(call: ManagerCall, k: int) -> bool {
    match call {
        ManagerCall::Register(a, b, o) => a == action_at(k) && is_binding_for(
            default_shortcut_texts(),
            k,
            b,
        ) && o is Ok,
        _ => false,
    }
}

/// The calls `p` unregistered every binding that `slots` holds before
/// position `n`.
pub open spec fn unregistered_upto(
    slots: Seq<Option<RegisteredBinding>>,
    p: Seq<ManagerCall>,
    n: int,
) -> bool {
    forall|k: int|
        0 <= k < n && (#[trigger] slots[k]) is Some ==> exists|j: int|
            0 <= j < p.len() && #[trigger] unregisters(p[j], slots[k]->0)
}

/// Some call of `p` registered the default of position `k`.
pub open spec fn default_registered(p: Seq<ManagerCall>, k: int) -> bool {
    exists|j: int| 0 <= j < p.len() && #[trigger] registers_default(p[j], k)
}

/// The calls `p` registered the defaults of the positions before `n`.
pub open spec fn registered_defaults_upto(p: Seq<ManagerCall>, n: int) -> bool {
    forall|k: int| 0 <= k < n ==> #[trigger] default_registered(p, k)
}

/// No call of `p` writes settings.
pub open spec fn no_writes(p: Seq<ManagerCall>) -> bool {
    forall|j: int| 0 <= j < p.len() ==> !((#[trigger] p[j]) is WriteSettings)
}

/// A write at position `i` of `c` writes `s` with the default shortcuts,
/// and comes after every earlier call succeeded, every binding of `slots`
/// was unregistered and every default was registered.
pub open spec fn write_follows_registration(
    slots: Seq<Option<RegisteredBinding>>,
    s: AppSettings,
    c: Seq<ManagerCall>,
    i: int,
) -> bool {
    match c[i] {
        ManagerCall::WriteSettings(d, _) => {
            &&& with_default_shortcuts(d, s)
            &&& no_failure(c.take(i))
            &&& registered_defaults_upto(c.take(i), 5)
            &&& unregistered_upto(slots, c.take(i), 5)
        },
        _ => true,
    }
}

/// `e` ends with `suffix`.
pub open spec fn ends_with(e: Seq<char>, suffix: Seq<char>) -> bool {
    e.len() >= suffix.len() && e.skip(e.len() - suffix.len()) == suffix
}

/// The bindings held in the first `n` slots, with their actions, in slot
/// order.
pub open spec fn present_bindings(slots: Seq<Option<RegisteredBinding>>, n: int) -> Seq<
    (ShortcutAction, RegisteredBinding),
>
    decreases n,
{
    if n <= 0 {
        Seq::empty()
    } else {
        let earlier = present_bindings(slots, n - 1);
        match slots[n - 1] {
            Some(b) => earlier.push((action_at(n - 1), b)),
            None => earlier,
        }
    }
}

/// The call asks the backend to unregister `b`, whatever it returned.
pub open spec fn unregister_of(call: ManagerCall, b: RegisteredBinding) -> bool {
    match call {
        ManagerCall::Unregister(u, _) => u == b,
        _ => false,
    }
}

/// The call asks the backend to register the pair `x`, whatever it
/// returned.
pub open spec fn register_of(call: ManagerCall, x: (ShortcutAction, RegisteredBinding)) -> bool {
    match call {
        ManagerCall::Register(a, b, _) => a == x.0 && b == x.1,
        _ => false,
    }
}

/// Each call of `seg` unregisters the binding at the same position of `p`.
pub open spec fn unregisters_each(
    seg: Seq<ManagerCall>,
    p: Seq<(ShortcutAction, RegisteredBinding)>,
) -> bool {
    seg.len() == p.len() && forall|t: int|
        0 <= t < seg.len() ==> #[trigger] unregister_of(seg[t], p[t].1)
}

/// Each call of `seg` registers the pair at the same position of `p`.
pub open spec fn registers_each(
    seg: Seq<ManagerCall>,
    p: Seq<(ShortcutAction, RegisteredBinding)>,
) -> bool {
    seg.len() == p.len() && forall|t: int| 0 <= t < seg.len() ==> #[trigger] register_of(seg[t], p[t])
}

/// The call registers, for position `k`, the binding that validation
/// builds from the default shortcuts.
pub open spec fn register_default_of(call: ManagerCall, k: int) -> bool {
    match call {
        ManagerCall::Register(a, b, _) => a == action_at(k) && is_binding_for(
            default_shortcut_texts(),
            k,
            b,
        ),
        _ => false,
    }
}

/// The calls of `seg` register the defaults of the first positions, in
/// order.
pub open spec fn registers_defaults_in_order(seg: Seq<ManagerCall>) -> bool {
    seg.len() <= 5 && forall|k: int| 0 <= k < seg.len() ==> #[trigger] register_default_of(seg[k], k)
}

/// The calls of `seg` unregister, newest first, the bindings that the
/// calls `regs` registered.
pub open spec fn undoes(seg: Seq<ManagerCall>, regs: Seq<ManagerCall>) -> bool {
    seg.len() == regs.len() && forall|t: int|
        0 <= t < seg.len() ==> #[trigger] unregister_of(seg[t], regs[regs.len() - 1 - t]->Register_1)
}

/// The rollback of a restore: unregister, newest first, the defaults that
/// `regs` registered, then register every removed binding `p` again, in
/// order.
pub open spec fn rollback_calls(
    p: Seq<(ShortcutAction, RegisteredBinding)>,
    regs: Seq<ManagerCall>,
    t: Seq<ManagerCall>,
) -> bool {
    &&& t.len() == regs.len() + p.len()
    &&& undoes(t.take(regs.len() as int), regs)
    &&& registers_each(t.skip(regs.len() as int), p)
}

/// The calls after the read when unregistering the previous binding `j`
/// of `p` fails: the first `j + 1` unregistrations, then the `j` removed
/// bindings registered again, in order.
pub open spec fn unregister_failure_calls(
    p: Seq<(ShortcutAction, RegisteredBinding)>,
    j: int,
    t: Seq<ManagerCall>,
) -> bool {
    &&& 0 <= j < p.len()
    &&& t.len() == 2 * j + 1
    &&& unregisters_each(t.take(j + 1), p.take(j + 1))
    &&& no_failure(t.take(j))
    &&& call_failed(t[j])
    &&& registers_each(t.skip(j + 1), p.take(j))
}

/// The calls after the read when registering the default of position `k`
/// fails: every previous binding unregistered, the first `k + 1` defaults
/// registered, then the rollback.
pub open spec fn register_failure_calls(
    p: Seq<(ShortcutAction, RegisteredBinding)>,
    k: int,
    t: Seq<ManagerCall>,
) -> bool {
    let m = p.len() as int;
    &&& 0 <= k < 5
    &&& t.len() >= m + k + 1
    &&& unregisters_each(t.take(m), p)
    &&& no_failure(t.take(m))
    &&& registers_defaults_in_order(t.skip(m).take(k + 1))
    &&& no_failure(t.skip(m).take(k))
    &&& call_failed(t[m + k])
    &&& rollback_calls(p, t.skip(m).take(k), t.skip(m + k + 1))
}

/// The calls after the read when every previous binding was unregistered
/// and every default registered: the write of the settings `s` with the
/// default shortcuts, and after a failed write the rollback.
pub open spec fn write_defaults_calls(
    p: Seq<(ShortcutAction, RegisteredBinding)>,
    s: AppSettings,
    t: Seq<ManagerCall>,
    r: Result<AppSettings, String>,
) -> bool {
    let m = p.len() as int;
    &&& t.len() >= m + 6
    &&& unregisters_each(t.take(m), p)
    &&& no_failure(t.take(m))
    &&& registers_defaults_in_order(t.skip(m).take(5))
    &&& no_failure(t.skip(m).take(5))
    &&& t[m + 5] matches ManagerCall::WriteSettings(d, o)
    &&& with_default_shortcuts(d, s)
    &&& (o is Ok ==> t.len() == m + 6 && (r matches Ok(x) && x == d))
    &&& (o is Err ==> r is Err && rollback_calls(p, t.skip(m).take(5), t.skip(m + 6)))
}

/// The exact calls of restoring the defaults, given what each returned:
/// the read; then, when the defaults have no problem, the previous
/// bindings are unregistered in slot order, the defaults registered in
/// order and the settings written, and the first failure stops that and
/// undoes it.
pub open spec fn restore_calls(
    slots: Seq<Option<RegisteredBinding>>,
    c: Seq<ManagerCall>,
    r: Result<AppSettings, String>,
) -> bool {
    &&& c.len() >= 1
    &&& c[0] matches ManagerCall::ReadSettings(s)
    &&& texts_problem(default_shortcut_texts()) is Some ==> c.len() == 1
    &&& texts_problem(default_shortcut_texts()) is None ==> {
        let p = present_bindings(slots, 5);
        let t = c.skip(1);
        ||| r is Err && exists|j: int| #[trigger] unregister_failure_calls(p, j, t)
        ||| r is Err && exists|k: int| #[trigger] register_failure_calls(p, k, t)
        ||| write_defaults_calls(p, s, t, r)
    }
}

/// What restoring the default shortcuts did, given what each call returned:
/// the settings are read; a default set with a problem is refused before
/// any backend call; otherwise settings are written only after every
/// previous binding was unregistered and every default registered, the
/// result is `Ok` exactly when that write succeeded, and a failure is
/// rolled back: when no rollback call fails, the previous registrations
/// are back and the message says so, otherwise it says the rollback was
/// incomplete.
pub open spec fn restore_outcome(
    slots: Seq<Option<RegisteredBinding>>,
    c: Seq<ManagerCall>,
    after: Seq<Option<RegisteredBinding>>,
    r: Result<AppSettings, String>,
) -> bool {
    c.len() >= 1 && match c[0] {
        ManagerCall::ReadSettings(s) => match texts_problem(default_shortcut_texts()) {
            Some(m) => c.len() == 1 && after == slots && error_text(r) == Some(m),
            None => {
                &&& forall|i: int|
                    0 <= i < c.len() ==> #[trigger] write_follows_registration(slots, s, c, i)
                &&& (r matches Ok(d) ==> (c.last() matches ManagerCall::WriteSettings(w, o) && w == d
                    && o is Ok))
                &&& forall|i: int|
                    0 <= i < c.len() && (#[trigger] c[i]) is WriteSettings && !call_failed(c[i])
                        ==> r is Ok
                &&& (r matches Err(e) ==> {
                    &&& exists|i: int| 0 <= i < c.len() && #[trigger] call_failed(c[i])
                    &&& (single_failure(c) ==> after == slots && ends_with(
                        e@,
                        "; the previous shortcuts were restored"@,
                    ))
                    &&& (!single_failure(c) ==> mentions(e@, incomplete_note()))
                })
            },
        },
        _ => false,
    }
}

proof fn lemma_ends_with(p: Seq<char>, suffix: Seq<char>)
    ensures
        ends_with(p + suffix, suffix),
{
    assert((p + suffix).skip(p.len() as int) =~= suffix);
}

/// `after` is `before` followed by the calls made since.
proof fn lemma_calls_split(before: Seq<ManagerCall>, after: Seq<ManagerCall>)
    requires
        extends(after, before),
    ensures
        after == before + after.skip(before.len() as int),
{
    assert(after =~= after.take(before.len() as int) + after.skip(before.len() as int));
}

/// Growing the calls keeps what earlier calls did.
proof fn lemma_made_push(
    slots: Seq<Option<RegisteredBinding>>,
    made: Seq<ManagerCall>,
    x: ManagerCall,
    n: int,
    m: int,
)
    ensures
        unregistered_upto(slots, made, n) ==> unregistered_upto(slots, made.push(x), n),
        registered_defaults_upto(made, m) ==> registered_defaults_upto(made.push(x), m),
        no_writes(made) && !(x is WriteSettings) ==> no_writes(made.push(x)),
        made.len() > 0 ==> made.push(x)[0] == made[0],
{
    let q = made.push(x);
    if unregistered_upto(slots, made, n) {
        assert forall|k: int| 0 <= k < n && (#[trigger] slots[k]) is Some implies exists|j: int|
            0 <= j < q.len() && #[trigger] unregisters(q[j], slots[k]->0) by {
            let j = choose|j: int| 0 <= j < made.len() && #[trigger] unregisters(made[j], slots[k]->0);
            assert(q[j] == made[j]);
        }
    }
    if registered_defaults_upto(made, m) {
        assert forall|k: int| 0 <= k < m implies #[trigger] default_registered(q, k) by {
            assert(default_registered(made, k));
            let j = choose|j: int| 0 <= j < made.len() && #[trigger] registers_default(made[j], k);
            assert(q[j] == made[j]);
        }
    }
    if no_writes(made) && !(x is WriteSettings) {
        assert forall|j: int| 0 <= j < q.len() implies !((#[trigger] q[j]) is WriteSettings) by {
            if j < made.len() {
                assert(q[j] == made[j]);
            }
        }
    }
}

proof fn lemma_unregistered_step(
    slots: Seq<Option<RegisteredBinding>>,
    made: Seq<ManagerCall>,
    x: ManagerCall,
    i: int,
)
    requires
        0 <= i,
        unregistered_upto(slots, made, i),
        slots[i] is Some ==> unregisters(x, slots[i]->0),
    ensures
        unregistered_upto(slots, made.push(x), i + 1),
{
    lemma_made_push(slots, made, x, i, 0);
    let q = made.push(x);
    assert forall|k: int| 0 <= k < i + 1 && (#[trigger] slots[k]) is Some implies exists|j: int|
        0 <= j < q.len() && #[trigger] unregisters(q[j], slots[k]->0) by {
        if k == i {
            assert(q[made.len() as int] == x);
        }
    }
}

proof fn lemma_registered_step(made: Seq<ManagerCall>, x: ManagerCall, k: int)
    requires
        0 <= k,
        registered_defaults_upto(made, k),
        registers_default(x, k),
    ensures
        registered_defaults_upto(made.push(x), k + 1),
{
    lemma_made_push(Seq::empty(), made, x, 0, k);
    let q = made.push(x);
    assert forall|j: int| 0 <= j < k + 1 implies #[trigger] default_registered(q, j) by {
        if j == k {
            assert(q[made.len() as int] == x);
        }
    }
}

/// The calls of a failure: successful calls, the failed one, then the
/// rollback calls.
proof fn lemma_failure_calls(made: Seq<ManagerCall>, x: ManagerCall, rest: Seq<ManagerCall>)
    requires
        no_failure(made),
        call_failed(x),
    ensures
        (made.push(x) + rest).take(made.len() as int) == made,
        (made.push(x) + rest)[made.len() as int] == x,
        exists|i: int| 0 <= i < (made.push(x) + rest).len() && #[trigger] call_failed(
            (made.push(x) + rest)[i],
        ),
        single_failure(made.push(x) + rest) == no_failure(rest),
        no_writes(made) && no_writes(rest) ==> forall|i: int|
            0 <= i < (made.push(x) + rest).len() && i != made.len() ==> !(#[trigger] (made.push(x)
                + rest)[i] is WriteSettings),
{
    let c = made.push(x) + rest;
    let n = made.len() as int;
    assert(c.take(n) =~= made);
    assert(c[n] == x);
    assert(call_failed(c[n]));
    if no_failure(rest) {
        assert forall|i: int, j: int| 0 <= i < j < c.len() && call_failed(#[trigger] c[i]) implies !call_failed(
            #[trigger] c[j],
        ) by {
            if i < n {
                assert(c[i] == made[i]);
            }
            assert(j > n);
            assert(c[j] == rest[j - n - 1]);
        }
    }
    if single_failure(c) {
        assert forall|j: int| 0 <= j < rest.len() implies !call_failed(#[trigger] rest[j]) by {
            assert(c[n + 1 + j] == rest[j]);
        }
    }
    if no_writes(made) && no_writes(rest) {
        assert forall|i: int| 0 <= i < c.len() && i != n implies !(#[trigger] c[i] is WriteSettings) by {
            if i < n {
                assert(c[i] == made[i]);
            } else {
                assert(c[i] == rest[i - n - 1]);
            }
        }
    }
}

proof fn lemma_present_grow(slots: Seq<Option<RegisteredBinding>>, i: int, n: int)
    requires
        0 <= i <= n,
    ensures
        present_bindings(slots, i).len() <= present_bindings(slots, n).len(),
        present_bindings(slots, n).take(present_bindings(slots, i).len() as int)
            == present_bindings(slots, i),
    decreases n - i,
{
    if n > i {
        lemma_present_grow(slots, i, n - 1);
        let a = present_bindings(slots, n - 1);
        let l = present_bindings(slots, i).len() as int;
        if slots[n - 1] is Some {
            assert(a.push((action_at(n - 1), slots[n - 1]->0)).take(l) =~= a.take(l));
        }
    } else {
        let a = present_bindings(slots, n);
        assert(a.take(a.len() as int) =~= a);
    }
}

/// The calls of `made` after the first are all successful when `made` is.
proof fn lemma_no_failure_skip(made: Seq<ManagerCall>, n: int)
    requires
        no_failure(made),
        0 <= n <= made.len(),
    ensures
        no_failure(made.skip(n)),
        no_failure(made.take(n)),
{
    assert forall|q: int| 0 <= q < made.skip(n).len() implies !call_failed(#[trigger] made.skip(n)[q]) by {
        assert(made.skip(n)[q] == made[q + n]);
    }
    assert forall|q: int| 0 <= q < made.take(n).len() implies !call_failed(#[trigger] made.take(n)[q]) by {
        assert(made.take(n)[q] == made[q]);
    }
}

/// The registrations of the defaults, taken from `dpairs` in order, are
/// registrations of the default bindings in order.
proof fn lemma_default_registrations(
    seg: Seq<ManagerCall>,
    registered: Seq<(ShortcutAction, RegisteredBinding)>,
    dpairs: Seq<(ShortcutAction, RegisteredBinding)>,
    k: int,
)
    requires
        0 <= k <= 5,
        dpairs.len() == 5,
        forall|j: int|
            0 <= j < 5 ==> (#[trigger] dpairs[j]).0 == action_at(j) && is_binding_for(
                default_shortcut_texts(),
                j,
                dpairs[j].1,
            ),
        registered == dpairs.take(k),
        registers_each(seg, registered),
    ensures
        registers_defaults_in_order(seg),
{
    assert forall|q: int| 0 <= q < seg.len() implies #[trigger] register_default_of(seg[q], q) by {
        assert(register_of(seg[q], registered[q]));
        assert(registered[q] == dpairs[q]);
    }
}

proof fn lemma_unregister_failure_shape(
    prev: Seq<Option<RegisteredBinding>>,
    i: int,
    removed: Seq<(ShortcutAction, RegisteredBinding)>,
    made: Seq<ManagerCall>,
    call: ManagerCall,
    rest: Seq<ManagerCall>,
)
    requires
        0 <= i < 5,
        removed == present_bindings(prev, i),
        prev[i] matches Some(b) && unregister_of(call, b),
        call_failed(call),
        made.len() >= 1,
        unregisters_each(made.skip(1), removed),
        no_failure(made),
        registers_each(rest, removed),
    ensures
        unregister_failure_calls(
            present_bindings(prev, 5),
            removed.len() as int,
            (made.push(call) + rest).skip(1),
        ),
{
    let p = present_bindings(prev, 5);
    let j = removed.len() as int;
    let b = prev[i]->0;
    lemma_present_grow(prev, i, 5);
    lemma_present_grow(prev, i + 1, 5);
    assert(present_bindings(prev, i + 1) == removed.push((action_at(i), b)));
    let t = (made.push(call) + rest).skip(1);
    let head = made.skip(1);
    assert(t.take(j + 1) =~= head.push(call));
    assert(t.take(j) =~= head);
    assert(t.skip(j + 1) =~= rest);
    assert(t[j] == call);
    lemma_no_failure_skip(made, 1);
    let q = removed.push((action_at(i), b));
    assert forall|u: int| 0 <= u < j + 1 implies #[trigger] unregister_of(head.push(call)[u], q[u].1) by {
        if u < j {
            assert(head.push(call)[u] == head[u]);
            assert(unregister_of(head[u], removed[u].1));
        }
    }
}

proof fn lemma_rollback_shape(
    p: Seq<(ShortcutAction, RegisteredBinding)>,
    regs: Seq<ManagerCall>,
    registered: Seq<(ShortcutAction, RegisteredBinding)>,
    rest: Seq<ManagerCall>,
)
    requires
        registers_each(regs, registered),
        rest.len() == registered.len() + p.len(),
        forall|q: int|
            0 <= q < registered.len() ==> #[trigger] unregister_of(
                rest[q],
                registered[registered.len() - 1 - q].1,
            ),
        registers_each(rest.skip(registered.len() as int), p),
    ensures
        rollback_calls(p, regs, rest),
{
    let n = registered.len() as int;
    assert forall|q: int| 0 <= q < n implies #[trigger] unregister_of(
        rest.take(n)[q],
        regs[regs.len() - 1 - q]->Register_1,
    ) by {
        assert(rest.take(n)[q] == rest[q]);
        assert(register_of(regs[n - 1 - q], registered[n - 1 - q]));
    }
}

proof fn lemma_register_failure_shape(
    p: Seq<(ShortcutAction, RegisteredBinding)>,
    k: int,
    made: Seq<ManagerCall>,
    call: ManagerCall,
    rest: Seq<ManagerCall>,
    registered: Seq<(ShortcutAction, RegisteredBinding)>,
    dpairs: Seq<(ShortcutAction, RegisteredBinding)>,
)
    requires
        0 <= k < 5,
        made.len() == 1 + p.len() + k,
        unregisters_each(made.skip(1).take(p.len() as int), p),
        no_failure(made),
        registers_each(made.skip(1 + p.len() as int), registered),
        dpairs.len() == 5,
        forall|j: int|
            0 <= j < 5 ==> (#[trigger] dpairs[j]).0 == action_at(j) && is_binding_for(
                default_shortcut_texts(),
                j,
                dpairs[j].1,
            ),
        registered == dpairs.take(k),
        register_of(call, dpairs[k]),
        call_failed(call),
        rest.len() == k + p.len(),
        forall|q: int|
            0 <= q < k ==> #[trigger] unregister_of(rest[q], registered[k - 1 - q].1),
        registers_each(rest.skip(k), p),
    ensures
        register_failure_calls(p, k, (made.push(call) + rest).skip(1)),
{
    let m = p.len() as int;
    let t = (made.push(call) + rest).skip(1);
    let head = made.skip(1);
    let regs = made.skip(1 + m);
    assert(t.take(m) =~= head.take(m));
    assert(t.skip(m).take(k + 1) =~= regs.push(call));
    assert(t.skip(m).take(k) =~= regs);
    assert(t[m + k] == call);
    assert(t.skip(m + k + 1) =~= rest);
    lemma_no_failure_skip(made, 1);
    lemma_no_failure_skip(head, m);
    lemma_no_failure_skip(made, 1 + m);
    assert(registered.push(dpairs[k]) =~= dpairs.take(k + 1));
    assert forall|u: int| 0 <= u < k + 1 implies #[trigger] register_of(
        regs.push(call)[u],
        registered.push(dpairs[k])[u],
    ) by {
        if u < k {
            assert(regs.push(call)[u] == regs[u]);
        }
    }
    lemma_default_registrations(regs.push(call), registered.push(dpairs[k]), dpairs, k + 1);
    lemma_rollback_shape(p, regs, registered, rest);
}

proof fn lemma_write_shape(
    p: Seq<(ShortcutAction, RegisteredBinding)>,
    s: AppSettings,
    made: Seq<ManagerCall>,
    call: ManagerCall,
    rest: Seq<ManagerCall>,
    r: Result<AppSettings, String>,
    registered: Seq<(ShortcutAction, RegisteredBinding)>,
    dpairs: Seq<(ShortcutAction, RegisteredBinding)>,
)
    requires
        made.len() == 1 + p.len() + 5,
        unregisters_each(made.skip(1).take(p.len() as int), p),
        no_failure(made),
        registers_each(made.skip(1 + p.len() as int), registered),
        dpairs.len() == 5,
        forall|j: int|
            0 <= j < 5 ==> (#[trigger] dpairs[j]).0 == action_at(j) && is_binding_for(
                default_shortcut_texts(),
                j,
                dpairs[j].1,
            ),
        registered == dpairs.take(5),
        call matches ManagerCall::WriteSettings(d, o) && with_default_shortcuts(d, s) && (o is Ok
            ==> rest.len() == 0 && (r matches Ok(x) && x == d)) && (o is Err ==> r is Err && {
            &&& rest.len() == 5 + p.len()
            &&& forall|q: int|
                0 <= q < 5 ==> #[trigger] unregister_of(rest[q], registered[5 - 1 - q].1)
            &&& registers_each(rest.skip(5), p)
        }),
    ensures
        write_defaults_calls(p, s, (made.push(call) + rest).skip(1), r),
{
    let m = p.len() as int;
    let t = (made.push(call) + rest).skip(1);
    let head = made.skip(1);
    let regs = made.skip(1 + m);
    assert(t.take(m) =~= head.take(m));
    assert(t.skip(m).take(5) =~= regs);
    assert(t[m + 5] == call);
    assert(t.skip(m + 6) =~= rest);
    lemma_no_failure_skip(made, 1);
    lemma_no_failure_skip(head, m);
    lemma_no_failure_skip(made, 1 + m);
    lemma_default_registrations(regs, registered, dpairs, 5);
    if call matches ManagerCall::WriteSettings(_, o) && o is Err {
        lemma_rollback_shape(p, regs, registered, rest);
    }
}

/// Unregisters the defaults registered so far (last first) and registers
/// the removed previous bindings again, then reports `primary` with the
/// outcome of that rollback.
fn roll_back_defaults<B: RegistrationBackend>(
    backend: &B,
    state: &mut ShortcutManagerState,
    registered: &Vec<(ShortcutAction, RegisteredBinding)>,
    removed: &Vec<(ShortcutAction, RegisteredBinding)>,
    primary: String,
) -> (e: String)
    requires
        removed_all(old(state).slots(), registered@) == no_slots(),
        distinct_actions(removed@),
    ensures
        extends(final(state).calls(), old(state).calls()),
        no_writes(final(state).calls().skip(old(state).calls().len() as int)),
        no_failure(final(state).calls().skip(old(state).calls().len() as int))
            ==> final(state).slots() == inserted_all(no_slots(), removed@) && e@ == primary@
            + "; the previous shortcuts were restored"@,
        !no_failure(final(state).calls().skip(old(state).calls().len() as int)) ==> mentions(
            e@,
            incomplete_note(),
        ),
        final(state).calls().skip(old(state).calls().len() as int).len() == registered@.len()
            + removed@.len(),
        forall|q: int|
            0 <= q < registered@.len() ==> #[trigger] unregister_of(
                final(state).calls().skip(old(state).calls().len() as int)[q],
                registered@[registered@.len() - 1 - q].1,
            ),
        registers_each(
            final(state).calls().skip(old(state).calls().len() as int).skip(
                registered@.len() as int,
            ),
            removed@,
        ),
{
    let ghost c0 = state.calls();
    let mut rollback_errors = remove_bindings(backend, state, registered);
    let ghost mid = state.calls();
    let ghost first = rollback_errors@;
    let more = restore_bindings(backend, state, removed);
    let ghost second = more@;
    append_errors(&mut rollback_errors, more);
    proof {
        let r1 = mid.skip(c0.len() as int);
        let r2 = state.calls().skip(mid.len() as int);
        lemma_calls_split(c0, mid);
        lemma_calls_chain(c0, r1, state.calls());
        let all = state.calls().skip(c0.len() as int);
        assert(all == r1 + r2);
        assert forall|j: int| 0 <= j < all.len() implies !((#[trigger] all[j]) is WriteSettings) by {
            if j < r1.len() {
                assert(all[j] == r1[j]);
            } else {
                assert(all[j] == r2[j - r1.len()]);
            }
        }
        if no_failure(all) {
            assert forall|j: int| 0 <= j < r1.len() implies !call_failed(#[trigger] r1[j]) by {
                assert(all[j] == r1[j]);
            }
            assert forall|j: int| 0 <= j < r2.len() implies !call_failed(#[trigger] r2[j]) by {
                assert(all[r1.len() + j] == r2[j]);
            }
        } else {
            let j = choose|j: int| 0 <= j < all.len() && call_failed(#[trigger] all[j]);
            if j < r1.len() {
                assert(all[j] == r1[j]);
                assert(!no_failure(r1));
            } else {
                assert(all[j] == r2[j - r1.len()]);
                assert(!no_failure(r2));
            }
        }
        assert(rollback_errors@.len() == first.len() + second.len());
        let n = registered@.len() as int;
        assert forall|q: int| 0 <= q < n implies #[trigger] unregister_of(
            all[q],
            registered@[n - 1 - q].1,
        ) by {
            assert(all[q] == r1[q]);
        }
        assert(all.skip(n) =~= r2);
        assert forall|q: int| 0 <= q < r2.len() implies #[trigger] register_of(r2[q], removed@[q]) by {}
        if rollback_errors@.len() > 0 {
            lemma_rollback_message(primary@, rollback_errors@.map_values(|e: String| e@));
        } else {
            assert(rollback_errors@.map_values(|e: String| e@).len() == 0);
        }
    }
    with_rollback_errors(primary, rollback_errors)
}

/// The slots that inserting the first `i` removed bindings back into `state`
/// gives, described for the removal loop of `restore_defaults_with`.
spec fn removal_progress(
    prev: Seq<Option<RegisteredBinding>>,
    state: Seq<Option<RegisteredBinding>>,
    removed: Seq<(ShortcutAction, RegisteredBinding)>,
    i: int,
) -> bool {
    &&& prev.len() == 5
    &&& state.len() == 5
    &&& distinct_actions(removed)
    &&& forall|k: int| 0 <= k < i ==> (#[trigger] state[k]) is None
    &&& forall|k: int| i <= k < 5 ==> #[trigger] state[k] == prev[k]
    &&& forall|j: int|
        0 <= j < removed.len() ==> action_index((#[trigger] removed[j]).0) < i && prev[action_index(
            removed[j].0,
        )] == Some(removed[j].1)
    &&& forall|k: int|
        0 <= k < i && (#[trigger] prev[k]) is Some ==> exists|j: int|
            0 <= j < removed.len() && action_index(removed[j].0) == k
}

proof fn lemma_removal_restores(
    prev: Seq<Option<RegisteredBinding>>,
    state: Seq<Option<RegisteredBinding>>,
    removed: Seq<(ShortcutAction, RegisteredBinding)>,
    i: int,
)
    requires
        0 <= i <= 5,
        removal_progress(prev, state, removed, i),
    ensures
        inserted_all(state, removed) == prev,
{
    assert forall|k: int| 0 <= k < 5 implies #[trigger] inserted_all(state, removed)[k] == prev[k] by {
        if exists|j: int| 0 <= j < removed.len() && action_index(removed[j].0) == k {
            let j = choose|j: int| 0 <= j < removed.len() && action_index(removed[j].0) == k;
            assert(prev[action_index(removed[j].0)] == Some(removed[j].1));
        } else {
            if k < i && prev[k] is Some {
                assert(exists|j: int| 0 <= j < removed.len() && action_index(removed[j].0) == k);
            }
        }
    }
    assert(inserted_all(state, removed) =~= prev);
}

/// Registering defaults into empty slots fills exactly their slots.
spec fn defaults_progress(
    state: Seq<Option<RegisteredBinding>>,
    defaults: Seq<(ShortcutAction, RegisteredBinding)>,
    registered: Seq<(ShortcutAction, RegisteredBinding)>,
    k: int,
) -> bool {
    &&& state.len() == 5
    &&& registered == defaults.take(k)
    &&& forall|j: int| 0 <= j < k ==> #[trigger] state[j] == Some(defaults[j].1)
    &&& forall|j: int| k <= j < 5 ==> (#[trigger] state[j]) is None
    &&& forall|j: int| 0 <= j < defaults.len() ==> action_index((#[trigger] defaults[j]).0) == j
}

proof fn lemma_defaults_removed(
    state: Seq<Option<RegisteredBinding>>,
    defaults: Seq<(ShortcutAction, RegisteredBinding)>,
    registered: Seq<(ShortcutAction, RegisteredBinding)>,
    k: int,
)
    requires
        0 <= k <= defaults.len() == 5,
        defaults_progress(state, defaults, registered, k),
    ensures
        removed_all(state, registered) == no_slots(),
{
    assert forall|j: int| 0 <= j < 5 implies #[trigger] removed_all(state, registered)[j]
        == no_slots()[j] by {
        if j < k {
            assert(registered[j] == defaults[j]);
            assert(action_index(registered[j].0) == j);
        }
    }
    assert(removed_all(state, registered) =~= no_slots());
}

fn append_errors(errors: &mut Vec<String>, more: Vec<String>)
    ensures
        final(errors)@ == old(errors)@ + more@,
{
    let mut more = more;
    errors.append(&mut more);
}

impl ShortcutManager {
    /// Replaces every registration with the defaults as one operation. If a
    /// default cannot be registered or persisted, every removed previous
    /// registration is restored and the settings stay unchanged.
    pub fn restore_defaults_with<B: RegistrationBackend, P: SettingsPersistence>(
        &mut self,
        backend: &B,
        persistence: &P,
    ) -> (r: Result<AppSettings, String>)
        ensures
            r matches Ok(d) ==> {
                &&& d.shortcuts.texts() == default_shortcut_texts()
                &&& forall|k: int|
                    0 <= k < 5 ==> ((#[trigger] final(self).registrations()[k]) matches Some(b)
                        && is_binding_for(default_shortcut_texts(), k, b))
            },
            r matches Err(e) ==> final(self).registrations() == old(self).registrations()
                || mentions(e@, incomplete_note()),
            extends(final(self).calls(), old(self).calls()),
            restore_outcome(
                old(self).registrations(),
                final(self).calls().skip(old(self).calls().len() as int),
                final(self).registrations(),
                r,
            ),
            restore_calls(
                old(self).registrations(),
                final(self).calls().skip(old(self).calls().len() as int),
                r,
            ),
    {
        let ghost prev = self.registrations();
        let ghost c0 = self.calls();
        let current = self.state.read_settings(persistence);
        let ghost read = ManagerCall::ReadSettings(current);
        let mut defaults = current.clone();
        defaults.shortcuts = ShortcutSettings::default();
        proof {
            assert(self.calls() =~= c0 + seq![read]);
            lemma_calls_grow(c0, seq![read]);
            assert(texts_problem(defaults.shortcuts.texts()) == registration_problem(defaults.shortcuts));
        }
        let default_bindings = match validated_bindings(&defaults.shortcuts) {
            Ok(bindings) => bindings,
            Err(e) => {
                return Err(e);
            },
        };
        let ghost s0 = current;
        let ghost pb = present_bindings(prev, 5);
        let previous = self.state.copy();
        let mut removed_previous: Vec<(ShortcutAction, RegisteredBinding)> = Vec::new();
        let mut i: usize = 0;
        proof {
            assert(no_failure(seq![read])) by {
                assert forall|j: int| 0 <= j < 1 implies !call_failed(#[trigger] seq![read][j]) by {}
            }
            assert(no_writes(seq![read]));
            assert(present_bindings(prev, 0) =~= removed_previous@);
            assert(self.calls().skip(c0.len() as int).skip(1) =~= Seq::<ManagerCall>::empty());
        }
        while i < 5
            invariant
                i <= 5,
                prev == old(self).registrations(),
                previous.slots() == prev,
                removal_progress(prev, self.registrations(), removed_previous@, i as int),
                c0 == old(self).calls(),
                extends(self.calls(), c0),
                self.calls().skip(c0.len() as int).len() >= 1,
                self.calls().skip(c0.len() as int)[0] == ManagerCall::ReadSettings(s0),
                no_failure(self.calls().skip(c0.len() as int)),
                no_writes(self.calls().skip(c0.len() as int)),
                unregistered_upto(prev, self.calls().skip(c0.len() as int), i as int),
                texts_problem(default_shortcut_texts()) is None,
                pb == present_bindings(prev, 5),
                removed_previous@ == present_bindings(prev, i as int),
                unregisters_each(self.calls().skip(c0.len() as int).skip(1), removed_previous@),
            decreases 5 - i,
        {
            let action = ShortcutAction::at(i);
            let ghost made = self.calls().skip(c0.len() as int);
            match previous.get(action) {
                None => {
                    proof {
                        lemma_action_index_roundtrip(action);
                        assert(prev[i as int] is None);
                        assert(present_bindings(prev, i + 1) == present_bindings(prev, i as int));
                        assert(unregistered_upto(prev, made, i + 1)) by {
                            assert forall|k: int| 0 <= k < i + 1 && (#[trigger] prev[k]) is Some implies exists|j: int|
                                0 <= j < made.len() && #[trigger] unregisters(made[j], prev[k]->0) by {
                            }
                        }
                    }
                },
                Some(binding) => {
                    let ghost before_calls = self.calls();
                    let removed = self.state.unregister_on(backend, &binding);
                    let ghost call = ManagerCall::Unregister(binding, removed);
                    proof {
                        lemma_calls_push(c0, before_calls, self.calls(), call);
                    }
                    match removed {
                        Err(error) => {
                            let ghost st = self.registrations();
                            let ghost mid = self.calls();
                            let rollback_errors = restore_bindings(
                                backend,
                                &mut self.state,
                                &removed_previous,
                            );
                            proof {
                                lemma_removal_restores(prev, st, removed_previous@, i as int);
                                assert(rollback_errors@.len() == 0 ==> self.registrations() == prev);
                            }
                            let mut primary = concat_str(
                                "failed to unregister the previous ",
                                action_name(action),
                            );
                            primary.append(" shortcut: ");
                            primary.append(error.as_str());
                            let ghost p = primary@;
                            let ghost errs = rollback_errors@.map_values(|e: String| e@);
                            let message = with_rollback_errors(primary, rollback_errors);
                            proof {
                                assert(message@ == rollback_message(p, errs));
                                if errs.len() > 0 {
                                    lemma_rollback_message(p, errs);
                                    assert(mentions(message@, incomplete_note()));
                                } else {
                                    assert(self.registrations() == prev);
                                    lemma_ends_with(p, "; the previous shortcuts were restored"@);
                                }
                                let rest = self.calls().skip(mid.len() as int);
                                lemma_calls_split(c0, mid);
                                assert(made.push(call) == mid.skip(c0.len() as int));
                                lemma_calls_chain(c0, made.push(call), self.calls());
                                assert((c0 + made.push(call)).len() == mid.len());
                                assert(no_writes(rest)) by {
                                    assert forall|j: int| 0 <= j < rest.len() implies !((#[trigger] rest[j]) is WriteSettings) by {}
                                }
                                lemma_failure_calls(made, call, rest);
                                let c = made.push(call) + rest;
                                assert(c[0] == made[0]);
                                assert forall|j: int| 0 <= j < c.len() implies #[trigger] write_follows_registration(prev, s0, c, j) by {
                                    if j != made.len() {
                                        assert(!(c[j] is WriteSettings));
                                    }
                                }
                                lemma_action_index_roundtrip(action);
                                assert(prev[i as int] == Some(binding));
                                assert forall|q: int| 0 <= q < rest.len() implies #[trigger] register_of(
                                    rest[q],
                                    removed_previous@[q],
                                ) by {}
                                lemma_unregister_failure_shape(prev, i as int, removed_previous@, made, call, rest);
                                assert(unregister_failure_calls(pb, removed_previous@.len() as int, c.skip(1)));
                            }
                            return Err(message);
                        },
                        Ok(()) => {},
                    }
                    self.state.take(action);
                    let ghost before = removed_previous@;
                    removed_previous.push((action, binding));
                    proof {
                        lemma_action_index_roundtrip(action);
                        assert(action_index(action) == i);
                        assert(binding == prev[i as int]->0);
                        assert(unregisters(call, prev[i as int]->0));
                        lemma_made_push(prev, made, call, i as int, 0);
                        lemma_unregistered_step(prev, made, call, i as int);
                        let rm = removed_previous@;
                        assert(present_bindings(prev, i + 1) == before.push((action_at(i as int), binding)));
                        assert(self.calls().skip(c0.len() as int) == made.push(call));
                        assert(made.push(call).skip(1) =~= made.skip(1).push(call));
                        assert forall|u: int| 0 <= u < rm.len() implies #[trigger] unregister_of(
                            made.skip(1).push(call)[u],
                            rm[u].1,
                        ) by {
                            if u < before.len() {
                                assert(made.skip(1).push(call)[u] == made.skip(1)[u]);
                                assert(unregister_of(made.skip(1)[u], before[u].1));
                            }
                        }
                        assert(rm[rm.len() - 1] == (action, binding));
                        assert forall|a: int, b: int| 0 <= a < b < rm.len() implies (#[trigger] rm[a]).0
                            != (#[trigger] rm[b]).0 by {
                            if b == rm.len() - 1 {
                                assert(rm[a] == before[a]);
                                assert(action_index(before[a].0) < i);
                            } else {
                                assert(rm[a] == before[a] && rm[b] == before[b]);
                            }
                        }
                        assert forall|k: int|
                            0 <= k < i + 1 && (#[trigger] prev[k]) is Some implies exists|j: int|
                            0 <= j < rm.len() && action_index(rm[j].0) == k by {
                            if k < i {
                                let j = choose|j: int|
                                    0 <= j < before.len() && action_index(before[j].0) == k;
                                assert(rm[j] == before[j]);
                            } else {
                                assert(action_index(rm[rm.len() - 1].0) == k);
                            }
                        }
                        assert forall|j: int| 0 <= j < rm.len() implies action_index(
                            (#[trigger] rm[j]).0,
                        ) < i + 1 && prev[action_index(rm[j].0)] == Some(rm[j].1) by {
                            if j < rm.len() - 1 {
                                assert(rm[j] == before[j]);
                            }
                        }
                    }
                },
            }
            i = i + 1;
        }
        let ghost cleared = self.registrations();
        proof {
            lemma_removal_restores(prev, cleared, removed_previous@, 5);
            assert(cleared =~= no_slots());
        }
        let mut registered_defaults: Vec<(ShortcutAction, RegisteredBinding)> = Vec::new();
        let mut k: usize = 0;
        assert(default_bindings@.take(0) =~= registered_defaults@);
        proof {
            let made0 = self.calls().skip(c0.len() as int);
            assert(made0.skip(1).take(pb.len() as int) =~= made0.skip(1));
            assert(made0.skip(1 + pb.len() as int) =~= Seq::<ManagerCall>::empty());
        }
        while k < default_bindings.len()
            invariant
                k <= default_bindings@.len() == 5,
                prev == old(self).registrations(),
                defaults.shortcuts.texts() == default_shortcut_texts(),
                with_default_shortcuts(defaults, s0),
                forall|j: int|
                    0 <= j < 5 ==> (#[trigger] default_bindings@[j]).0 == action_at(j)
                        && is_binding_for(defaults.shortcuts.texts(), j, default_bindings@[j].1),
                inserted_all(no_slots(), removed_previous@) == prev,
                distinct_actions(removed_previous@),
                defaults_progress(
                    self.registrations(),
                    default_bindings@,
                    registered_defaults@,
                    k as int,
                ),
                c0 == old(self).calls(),
                extends(self.calls(), c0),
                self.calls().skip(c0.len() as int).len() >= 1,
                self.calls().skip(c0.len() as int)[0] == ManagerCall::ReadSettings(s0),
                no_failure(self.calls().skip(c0.len() as int)),
                no_writes(self.calls().skip(c0.len() as int)),
                unregistered_upto(prev, self.calls().skip(c0.len() as int), 5),
                registered_defaults_upto(self.calls().skip(c0.len() as int), k as int),
                texts_problem(default_shortcut_texts()) is None,
                pb == present_bindings(prev, 5),
                removed_previous@ == pb,
                self.calls().skip(c0.len() as int).len() == 1 + pb.len() + k,
                unregisters_each(self.calls().skip(c0.len() as int).skip(1).take(pb.len() as int), pb),
                registers_each(
                    self.calls().skip(c0.len() as int).skip(1 + pb.len() as int),
                    registered_defaults@,
                ),
            decreases 5 - k,
        {
            let action = default_bindings[k].0;
            let binding = default_bindings[k].1.clone();
            let ghost made = self.calls().skip(c0.len() as int);
            let ghost before_calls = self.calls();
            let outcome = self.state.register_on(backend, action, &binding);
            let ghost call = ManagerCall::Register(action, binding, outcome);
            proof {
                lemma_calls_push(c0, before_calls, self.calls(), call);
            }
            match outcome {
                Err(error) => {
                    proof {
                        lemma_defaults_removed(
                            self.registrations(),
                            default_bindings@,
                            registered_defaults@,
                            k as int,
                        );
                    }
                    let mut primary = concat_str("failed to register the default ", action_name(action));
                    primary.append(" shortcut `");
                    primary.append(binding.text.as_str());
                    primary.append("`: ");
                    primary.append(error.as_str());
                    let ghost p = primary@;
                    let ghost mid = self.calls();
                    let message = roll_back_defaults(
                        backend,
                        &mut self.state,
                        &registered_defaults,
                        &removed_previous,
                        primary,
                    );
                    proof {
                        let rest = self.calls().skip(mid.len() as int);
                        lemma_calls_split(c0, mid);
                        assert(made.push(call) == mid.skip(c0.len() as int));
                        lemma_calls_chain(c0, made.push(call), self.calls());
                        assert((c0 + made.push(call)).len() == mid.len());
                        lemma_failure_calls(made, call, rest);
                        let c = made.push(call) + rest;
                        assert(c[0] == made[0]);
                        assert(c[0] == ManagerCall::ReadSettings(s0));
                        assert forall|j: int| 0 <= j < c.len() implies #[trigger] write_follows_registration(prev, s0, c, j) by {
                            if j != made.len() {
                                assert(!(c[j] is WriteSettings));
                            }
                        }
                        if no_failure(rest) {
                            lemma_ends_with(p, "; the previous shortcuts were restored"@);
                        }
                        assert(register_of(call, default_bindings@[k as int]));
                        assert(registered_defaults@ == default_bindings@.take(k as int));
                        lemma_register_failure_shape(
                            pb,
                            k as int,
                            made,
                            call,
                            rest,
                            registered_defaults@,
                            default_bindings@,
                        );
                        assert(register_failure_calls(pb, k as int, c.skip(1)));
                    }
                    return Err(message);
                },
                Ok(()) => {},
            }
            proof {
                assert(default_bindings@[k as int].0 == action_at(k as int));
                assert(registers_default(call, k as int));
                lemma_made_push(prev, made, call, 5, k as int);
                lemma_registered_step(made, call, k as int);
            }
            let ghost regs_before = registered_defaults@;
            self.state.insert(action, binding.clone());
            registered_defaults.push((action, binding));
            proof {
                assert(registered_defaults@ =~= default_bindings@.take(k + 1));
                let m = pb.len() as int;
                let made2 = self.calls().skip(c0.len() as int);
                assert(made2 == made.push(call));
                assert(made2.skip(1).take(m) =~= made.skip(1).take(m));
                assert(made2.skip(1 + m) =~= made.skip(1 + m).push(call));
                assert forall|u: int| 0 <= u < registered_defaults@.len() implies #[trigger] register_of(
                    made.skip(1 + m).push(call)[u],
                    registered_defaults@[u],
                ) by {
                    if u < regs_before.len() {
                        assert(made.skip(1 + m).push(call)[u] == made.skip(1 + m)[u]);
                        assert(register_of(made.skip(1 + m)[u], regs_before[u]));
                    }
                }
            }
            k = k + 1;
        }
        let ghost made = self.calls().skip(c0.len() as int);
        let ghost before_calls = self.calls();
        let ghost written = defaults;
        let outcome = self.state.write_settings(persistence, defaults.clone());
        let ghost call = ManagerCall::WriteSettings(written, outcome);
        proof {
            lemma_calls_push(c0, before_calls, self.calls(), call);
        }
        match outcome {
            Err(error) => {
                proof {
                    lemma_defaults_removed(
                        self.registrations(),
                        default_bindings@,
                        registered_defaults@,
                        k as int,
                    );
                }
                let mut primary = String::from_str("failed to persist default shortcuts: ");
                primary.append(error.as_str());
                let ghost p = primary@;
                let ghost mid = self.calls();
                let message = roll_back_defaults(
                    backend,
                    &mut self.state,
                    &registered_defaults,
                    &removed_previous,
                    primary,
                );
                proof {
                    let rest = self.calls().skip(mid.len() as int);
                    lemma_calls_split(c0, mid);
                    assert(made.push(call) == mid.skip(c0.len() as int));
                    lemma_calls_chain(c0, made.push(call), self.calls());
                    assert((c0 + made.push(call)).len() == mid.len());
                    lemma_failure_calls(made, call, rest);
                    let c = made.push(call) + rest;
                    assert(c[0] == made[0]);
                    assert(c[0] == ManagerCall::ReadSettings(s0));
                    assert forall|j: int| 0 <= j < c.len() implies #[trigger] write_follows_registration(prev, s0, c, j) by {
                        if j != made.len() {
                            assert(!(c[j] is WriteSettings));
                        } else {
                            assert(c.take(j) == made);
                        }
                    }
                    assert forall|j: int| 0 <= j < c.len() && (#[trigger] c[j]) is WriteSettings implies call_failed(c[j]) by {
                        if j != made.len() {
                            assert(!(c[j] is WriteSettings));
                        }
                    }
                    if no_failure(rest) {
                        lemma_ends_with(p, "; the previous shortcuts were restored"@);
                    }
                    assert(registered_defaults@ == default_bindings@.take(5));
                    lemma_write_shape(
                        pb,
                        s0,
                        made,
                        call,
                        rest,
                        Err::<AppSettings, String>(message),
                        registered_defaults@,
                        default_bindings@,
                    );
                }
                return Err(message);
            },
            Ok(()) => {},
        }
        proof {
            let c = self.calls().skip(c0.len() as int);
            assert(c == made.push(call));
            assert(c.take(made.len() as int) =~= made);
            assert forall|j: int| 0 <= j < c.len() implies #[trigger] write_follows_registration(prev, s0, c, j) by {
                if j < made.len() {
                    assert(c[j] == made[j]);
                }
            }
            assert(registered_defaults@ == default_bindings@.take(5));
            assert(made.push(call) + Seq::<ManagerCall>::empty() =~= made.push(call));
            lemma_write_shape(
                pb,
                s0,
                made,
                call,
                Seq::empty(),
                Ok::<AppSettings, String>(defaults),
                registered_defaults@,
                default_bindings@,
            );
        }
        Ok(defaults)
    }
}
} // verus!

// ---------------------------------------------------------------------------
// Laws of a shortcut change and of restoring the defaults
// ---------------------------------------------------------------------------

verus! {

/// The call registered, for `action`, a binding of the text `t`, and the
/// backend accepted it.
pub open spec fn accepts_new(call: ManagerCall, action: ShortcutAction, t: Seq<char>) -> bool {
    match call {
        ManagerCall::Register(a, b, o) => a == action && b.text@ == t && o is Ok,
        _ => false,
    }
}

/// A write at position `i` of `c` comes right after the backend accepted
/// the new binding of `action` for the text `t`.
pub open spec fn write_preceded(c: Seq<ManagerCall>, i: int, action: ShortcutAction, t: Seq<char>) -> bool {
    c[i] is WriteSettings ==> 1 <= i && accepts_new(c[i - 1], action, t)
}

/// The change unregistered the previous binding of `action`.
pub open spec fn removed_previous(
    slots: Seq<Option<RegisteredBinding>>,
    action: ShortcutAction,
    c: Seq<ManagerCall>,
) -> bool {
    &&& c.len() >= 2
    &&& slots[action_index(action)] matches Some(ob)
    &&& c[1] matches ManagerCall::Unregister(b, o)
    &&& b == ob
    &&& o is Ok
}

proof fn lemma_restore_previous_shape(
    slots: Seq<Option<RegisteredBinding>>,
    action: ShortcutAction,
    old: Option<RegisteredBinding>,
    primary: Seq<char>,
    c: Seq<ManagerCall>,
    after: Seq<Option<RegisteredBinding>>,
    msg: Seq<char>,
)
    requires
        restore_previous_run(slots, action, old, primary, c, after, msg),
    ensures
        c.len() <= 1,
        forall|i: int| 0 <= i < c.len() ==> (#[trigger] c[i]) is Register,
{
}

proof fn lemma_persist_failure_shape(
    slots: Seq<Option<RegisteredBinding>>,
    action: ShortcutAction,
    nb: RegisteredBinding,
    old: Option<RegisteredBinding>,
    primary: Seq<char>,
    c: Seq<ManagerCall>,
    after: Seq<Option<RegisteredBinding>>,
    msg: Seq<char>,
)
    requires
        persist_failure_run(slots, action, nb, old, primary, c, after, msg),
    ensures
        1 <= c.len() <= 2,
        forall|i: int| 0 <= i < c.len() ==> !((#[trigger] c[i]) is WriteSettings),
{
    if c[0] matches ManagerCall::Unregister(_, o) && o is Ok {
        let rest = c.skip(1);
        lemma_restore_previous_shape(
            slots.update(action_index(action), None),
            action,
            old,
            primary,
            rest,
            after,
            msg,
        );
        assert forall|i: int| 0 <= i < c.len() implies !((#[trigger] c[i]) is WriteSettings) by {
            if i >= 1 {
                assert(c[i] == rest[i - 1]);
            }
        }
    }
}

proof fn lemma_register_new_writes(
    slots: Seq<Option<RegisteredBinding>>,
    action: ShortcutAction,
    s: AppSettings,
    t: Seq<char>,
    old: Option<RegisteredBinding>,
    c: Seq<ManagerCall>,
    after: Seq<Option<RegisteredBinding>>,
    r: Result<AppSettings, String>,
)
    requires
        register_new_run(slots, action, s, t, old, c, after, r),
    ensures
        forall|i: int| 0 <= i < c.len() ==> #[trigger] write_preceded(c, i, action, t),
        r matches Ok(u) ==> {
            &&& with_shortcut(u, s, action_index(action), t)
            &&& c.last() matches ManagerCall::WriteSettings(w, o)
            &&& w == u
            &&& o is Ok
        },
{
    let k = action_index(action);
    let c1 = c.skip(1);
    if let ManagerCall::Register(_, nb, o) = c[0] {
        match o {
            Err(_) => {
                lemma_restore_previous_shape(
                    slots,
                    action,
                    old,
                    "failed to register the new "@ + spec_field_name(action) + " shortcut: "@ + o->Err_0@,
                    c1,
                    after,
                    error_text(r)->0,
                );
                assert forall|i: int| 0 <= i < c.len() implies #[trigger] write_preceded(c, i, action, t) by {
                    if i >= 1 {
                        assert(c[i] == c1[i - 1]);
                    }
                }
            },
            Ok(()) => {
                assert(c1[0] == c[1]);
                if let ManagerCall::WriteSettings(u, wo) = c1[0] {
                    if wo is Err {
                        let c2 = c1.skip(1);
                        lemma_persist_failure_shape(
                            slots.update(k, Some(nb)),
                            action,
                            nb,
                            old,
                            "failed to persist shortcut settings: "@ + wo->Err_0@,
                            c2,
                            after,
                            error_text(r)->0,
                        );
                        assert forall|i: int| 0 <= i < c.len() implies #[trigger] write_preceded(c, i, action, t) by {
                            if i >= 2 {
                                assert(c[i] == c2[i - 2]);
                            }
                        }
                    } else {
                        assert forall|i: int| 0 <= i < c.len() implies #[trigger] write_preceded(c, i, action, t) by {
                        }
                    }
                }
            },
        }
    }
}

/// A shortcut change writes settings only right after the backend accepted
/// the new binding, and it succeeds only through a successful write of the
/// settings it read with that one shortcut set to the trimmed text.
pub proof fn law_update_writes_only_after_registration(
    slots: Seq<Option<RegisteredBinding>>,
    action: ShortcutAction,
    shortcut: Seq<char>,
    c: Seq<ManagerCall>,
    after: Seq<Option<RegisteredBinding>>,
    r: Result<AppSettings, String>,
)
    requires
        slots.len() == 5,
        update_run(slots, action, shortcut, c, after, r),
    ensures
        forall|i: int| 0 <= i < c.len() ==> #[trigger] write_preceded(c, i, action, trim(shortcut)),
        r matches Ok(u) ==> {
            &&& c[0] matches ManagerCall::ReadSettings(s)
            &&& with_shortcut(u, s, action_index(action), trim(shortcut))
            &&& c.last() matches ManagerCall::WriteSettings(w, o)
            &&& w == u
            &&& o is Ok
        },
{
    let k = action_index(action);
    let t = trim(shortcut);
    if let ManagerCall::ReadSettings(s) = c[0] {
        if texts_problem(s.shortcuts.texts().update(k, t)) is Some {
            assert forall|i: int| 0 <= i < c.len() implies #[trigger] write_preceded(c, i, action, t) by {}
        } else {
            let m: int = if slots[k] is None { 1 } else { 2 };
            let old = slots[k];
            let run_slots = if slots[k] is None { slots } else { slots.update(k, None) };
            let proceeds = m == 1 || (c[1] matches ManagerCall::Unregister(_, o) && o is Ok);
            if proceeds {
                let rest = c.skip(m);
                lemma_register_new_writes(run_slots, action, s, t, old, rest, after, r);
                assert forall|i: int| 0 <= i < c.len() implies #[trigger] write_preceded(c, i, action, t) by {
                    if i >= m {
                        assert(c[i] == rest[i - m]);
                        assert(write_preceded(rest, i - m, action, t));
                        if i - m >= 1 {
                            assert(c[i - 1] == rest[i - m - 1]);
                        }
                    }
                }
                if r is Ok {
                    assert(c.last() == rest.last());
                }
            } else {
                assert forall|i: int| 0 <= i < c.len() implies #[trigger] write_preceded(c, i, action, t) by {}
            }
        }
    }
}

proof fn lemma_single_failure_skip(c: Seq<ManagerCall>, m: int)
    requires
        single_failure(c),
        0 <= m <= c.len(),
    ensures
        single_failure(c.skip(m)),
{
    let d = c.skip(m);
    assert forall|i: int, j: int|
        0 <= i < j < d.len() && call_failed(#[trigger] d[i]) implies !call_failed(#[trigger] d[j]) by {
        assert(d[i] == c[i + m]);
        assert(d[j] == c[j + m]);
    }
}

proof fn lemma_register_new_failure(
    slots: Seq<Option<RegisteredBinding>>,
    action: ShortcutAction,
    s: AppSettings,
    t: Seq<char>,
    old: Option<RegisteredBinding>,
    c: Seq<ManagerCall>,
    after: Seq<Option<RegisteredBinding>>,
    r: Result<AppSettings, String>,
)
    requires
        register_new_run(slots, action, s, t, old, c, after, r),
        r is Err,
        single_failure(c),
        slots.len() == 5,
        slots[action_index(action)] is None,
    ensures
        after == match old {
            None => slots,
            Some(ob) => slots.update(action_index(action), Some(ob)),
        },
        forall|i: int| 0 <= i < c.len() && (#[trigger] c[i]) is WriteSettings ==> call_failed(c[i]),
        old is Some ==> (r matches Err(e) && ends_with(e@, "; the previous shortcut was restored"@)),
{
    let k = action_index(action);
    let c1 = c.skip(1);
    let note = "; the previous shortcut was restored"@;
    if let ManagerCall::Register(_, nb, o) = c[0] {
        match o {
            Err(e1) => {
                let primary = "failed to register the new "@ + spec_field_name(action) + " shortcut: "@ + e1@;
                lemma_restore_previous_shape(slots, action, old, primary, c1, after, error_text(r)->0);
                if old is Some {
                    assert(c1[0] == c[1]);
                    assert(call_failed(c[0]));
                    assert(!call_failed(c[1]));
                    lemma_ends_with(primary, note);
                }
                assert forall|i: int| 0 <= i < c.len() && (#[trigger] c[i]) is WriteSettings implies call_failed(c[i]) by {
                    if i >= 1 {
                        assert(c[i] == c1[i - 1]);
                    }
                }
            },
            Ok(()) => {
                assert(c1[0] == c[1]);
                if let ManagerCall::WriteSettings(u, wo) = c1[0] {
                    let e2 = wo->Err_0;
                    let primary = "failed to persist shortcut settings: "@ + e2@;
                    let slots2 = slots.update(k, Some(nb));
                    let c2 = c1.skip(1);
                    let msg = error_text(r)->0;
                    lemma_persist_failure_shape(slots2, action, nb, old, primary, c2, after, msg);
                    assert(c2[0] == c[2]);
                    assert(call_failed(c[1]));
                    assert(!call_failed(c[2]));
                    let c3 = c2.skip(1);
                    assert(slots2.update(k, None) =~= slots);
                    if old is Some {
                        assert(c3[0] == c[3]);
                        assert(!call_failed(c[3]));
                        lemma_ends_with(primary, note);
                    }
                    assert forall|i: int| 0 <= i < c.len() && (#[trigger] c[i]) is WriteSettings implies call_failed(c[i]) by {
                        if i >= 2 {
                            assert(c[i] == c2[i - 2]);
                        }
                    }
                }
            },
        }
    }
}

/// A failed shortcut change whose rollback had no failing step leaves the
/// registrations as they were, and none of its writes succeeded, so the
/// stored settings are unchanged; where the previous binding had been
/// unregistered, the message says that it was restored.
pub proof fn law_update_failure_rolls_back(
    slots: Seq<Option<RegisteredBinding>>,
    action: ShortcutAction,
    shortcut: Seq<char>,
    c: Seq<ManagerCall>,
    after: Seq<Option<RegisteredBinding>>,
    r: Result<AppSettings, String>,
)
    requires
        slots.len() == 5,
        update_run(slots, action, shortcut, c, after, r),
        r is Err,
        single_failure(c),
    ensures
        after == slots,
        forall|i: int| 0 <= i < c.len() && (#[trigger] c[i]) is WriteSettings ==> call_failed(c[i]),
        removed_previous(slots, action, c) ==> (r matches Err(e) && ends_with(
            e@,
            "; the previous shortcut was restored"@,
        )),
{
    let k = action_index(action);
    let t = trim(shortcut);
    if let ManagerCall::ReadSettings(s) = c[0] {
        if texts_problem(s.shortcuts.texts().update(k, t)) is None {
            match slots[k] {
                None => {
                    let rest = c.skip(1);
                    lemma_single_failure_skip(c, 1);
                    lemma_register_new_failure(slots, action, s, t, None, rest, after, r);
                    assert forall|i: int| 0 <= i < c.len() && (#[trigger] c[i]) is WriteSettings implies call_failed(c[i]) by {
                        if i >= 1 {
                            assert(c[i] == rest[i - 1]);
                        }
                    }
                },
                Some(ob) => {
                    if c[1] matches ManagerCall::Unregister(_, o) && o is Ok {
                        let rest = c.skip(2);
                        lemma_single_failure_skip(c, 2);
                        lemma_register_new_failure(slots.update(k, None), action, s, t, Some(ob), rest, after, r);
                        assert(slots.update(k, None).update(k, Some(ob)) =~= slots);
                        assert forall|i: int| 0 <= i < c.len() && (#[trigger] c[i]) is WriteSettings implies call_failed(c[i]) by {
                            if i >= 2 {
                                assert(c[i] == rest[i - 2]);
                            }
                        }
                    }
                },
            }
        }
    }
}

/// Restoring the defaults writes settings only after every earlier call
/// succeeded, every previous binding was unregistered and every default
/// registered; it succeeds only through a successful write of the settings
/// it read with the default shortcuts.
pub proof fn law_restore_writes_only_after_registration(
    slots: Seq<Option<RegisteredBinding>>,
    c: Seq<ManagerCall>,
    after: Seq<Option<RegisteredBinding>>,
    r: Result<AppSettings, String>,
)
    requires
        restore_outcome(slots, c, after, r),
    ensures
        forall|i: int|
            0 <= i < c.len() && (#[trigger] c[i]) is WriteSettings ==> {
                &&& no_failure(c.take(i))
                &&& registered_defaults_upto(c.take(i), 5)
                &&& unregistered_upto(slots, c.take(i), 5)
            },
        r matches Ok(d) ==> {
            &&& c[0] matches ManagerCall::ReadSettings(s)
            &&& with_default_shortcuts(d, s)
            &&& c.last() matches ManagerCall::WriteSettings(w, o)
            &&& w == d
            &&& o is Ok
        },
{
    if let ManagerCall::ReadSettings(s) = c[0] {
        if texts_problem(default_shortcut_texts()) is None {
            assert forall|i: int| 0 <= i < c.len() && (#[trigger] c[i]) is WriteSettings implies {
                &&& no_failure(c.take(i))
                &&& registered_defaults_upto(c.take(i), 5)
                &&& unregistered_upto(slots, c.take(i), 5)
            } by {
                assert(write_follows_registration(slots, s, c, i));
            }
            if r is Ok {
                assert(write_follows_registration(slots, s, c, c.len() - 1));
            }
        }
    }
}

/// A failed restore whose rollback had no failing step leaves the
/// registrations as they were, and none of its writes succeeded; a default
/// set that the library refuses gives that refusal, and otherwise the
/// message says the previous shortcuts were restored.
pub proof fn law_restore_failure_rolls_back(
    slots: Seq<Option<RegisteredBinding>>,
    c: Seq<ManagerCall>,
    after: Seq<Option<RegisteredBinding>>,
    r: Result<AppSettings, String>,
)
    requires
        restore_outcome(slots, c, after, r),
        r is Err,
        single_failure(c),
    ensures
        after == slots,
        forall|i: int| 0 <= i < c.len() && (#[trigger] c[i]) is WriteSettings ==> call_failed(c[i]),
        r matches Err(e) ==> match texts_problem(default_shortcut_texts()) {
            Some(m) => e@ == m,
            None => ends_with(e@, "; the previous shortcuts were restored"@),
        },
{
}

/// A successful restore made exactly these calls: the read, one
/// unregistration of each previous binding in slot order, one registration
/// of each default in order, and the write; every one of them succeeded, so
/// the backend holds the defaults in place of the previous bindings.
pub proof fn law_restore_success_calls(
    slots: Seq<Option<RegisteredBinding>>,
    c: Seq<ManagerCall>,
    after: Seq<Option<RegisteredBinding>>,
    r: Result<AppSettings, String>,
)
    requires
        restore_outcome(slots, c, after, r),
        restore_calls(slots, c, r),
        r is Ok,
    ensures
        c.len() == present_bindings(slots, 5).len() + 7,
        unregisters_each(
            c.skip(1).take(present_bindings(slots, 5).len() as int),
            present_bindings(slots, 5),
        ),
        registers_defaults_in_order(
            c.skip(1 + present_bindings(slots, 5).len() as int).take(5),
        ),
        c.last() is WriteSettings,
        no_failure(c),
{
    let p = present_bindings(slots, 5);
    let m = p.len() as int;
    let t = c.skip(1);
    assert(texts_problem(default_shortcut_texts()) is None);
    assert(write_defaults_calls(p, c[0]->ReadSettings_0, t, r));
    assert(t.skip(m).take(5) =~= c.skip(1 + m).take(5));
    assert(c.last() == t[m + 5]);
    assert forall|q: int| 0 <= q < c.len() implies !call_failed(#[trigger] c[q]) by {
        if 1 <= q < 1 + m {
            assert(c[q] == t.take(m)[q - 1]);
        } else if 1 + m <= q < 6 + m {
            assert(c[q] == t.skip(m).take(5)[q - 1 - m]);
        }
    }
}

} // verus!
