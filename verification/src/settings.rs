//! The persisted application settings: preferences, global shortcuts, and
//! the validation rules that every stored snapshot satisfies.
use vstd::prelude::*;
use vstd::utf8::encode_utf8;
use crate::text::{is_white_space, lemma_split_concat, lemma_split_without_sep};

use crate::text::{
    ascii_lower, ascii_lower_char, ascii_lower_chars, chars_equal, chars_of, concat_str, decimal,
    decimal_string, join_chars, join_with, lemma_sorted_arrangement_exists,
    lemma_sorted_arrangement_of_same_elements, lemma_sorted_arrangement_unique,
    lemma_split_join, lemma_split_nonempty, lemma_split_pieces_lack_sep, lemma_trim_keeps_chars,
    sort_lex, sorted_arrangement, split_chars, split_on, string_from_chars, trim, trim_chars,
};

verus! {

/// The longest shortcut text, in UTF-8 bytes, that validation accepts.
pub const MAX_SHORTCUT_LENGTH: usize = 128;

/// The settings layout this build reads and writes.
pub const CURRENT_SETTINGS_SCHEMA_VERSION: u32 = 1;

/// The language of the native (non-web) user interface.
#[derive(Debug, Clone, Copy, PartialEq, Eq, Structural, Hash)]
pub enum Language {
    English,
    Turkish,
}

impl Default for Language {
    fn default() -> (r: Self)
        ensures
            r == Language::English,
    {
        Language::English
    }
}

/// User preferences that are applied at runtime.
#[derive(Debug, Clone, Copy, PartialEq, Eq, Structural)]
pub struct ApplicationSettings {
    pub language: Language,
    pub discord_rich_presence_enabled: bool,
    pub close_to_tray: bool,
    pub start_minimized: bool,
    pub mini_player_always_on_top: bool,
}

/// The preferences a fresh installation starts with.
pub open spec fn default_application_settings() -> ApplicationSettings {
    ApplicationSettings {
        language: Language::English,
        discord_rich_presence_enabled: true,
        close_to_tray: true,
        start_minimized: false,
        mini_player_always_on_top: false,
    }
}

impl Default for ApplicationSettings {
    fn default() -> (r: Self)
        ensures
            r == default_application_settings(),
    {
        ApplicationSettings {
            language: Language::English,
            discord_rich_presence_enabled: true,
            close_to_tray: true,
            start_minimized: false,
            mini_player_always_on_top: false,
        }
    }
}

/// A playback action that can be bound to a global shortcut.
#[derive(Debug, Clone, Copy, PartialEq, Eq, Structural, Hash)]
pub enum ShortcutAction {
    PlayPause,
    Next,
    Previous,
    SeekForward10,
    SeekBackward10,
}

/// The action at position `i` of `ShortcutAction::ALL`.
pub open spec fn action_at(i: int) -> ShortcutAction {
    if i == 0 {
        ShortcutAction::PlayPause
    } else if i == 1 {
        ShortcutAction::Next
    } else if i == 2 {
        ShortcutAction::Previous
    } else if i == 3 {
        ShortcutAction::SeekForward10
    } else {
        ShortcutAction::SeekBackward10
    }
}

/// The position of `a` in `ShortcutAction::ALL`.
pub open spec fn action_index(a: ShortcutAction) -> int {
    match a {
        ShortcutAction::PlayPause => 0,
        ShortcutAction::Next => 1,
        ShortcutAction::Previous => 2,
        ShortcutAction::SeekForward10 => 3,
        ShortcutAction::SeekBackward10 => 4,
    }
}

/// The name an action goes by in validation messages.
pub open spec fn spec_field_name(a: ShortcutAction) -> Seq<char> {
    match a {
        ShortcutAction::PlayPause => "play/pause"@,
        ShortcutAction::Next => "next"@,
        ShortcutAction::Previous => "previous"@,
        ShortcutAction::SeekForward10 => "seek forward"@,
        ShortcutAction::SeekBackward10 => "seek backward"@,
    }
}

impl ShortcutAction {
    /// Every action, in the order the settings list them.
    pub const ALL: [ShortcutAction; 5] = [
        ShortcutAction::PlayPause,
        ShortcutAction::Next,
        ShortcutAction::Previous,
        ShortcutAction::SeekForward10,
        ShortcutAction::SeekBackward10,
    ];

    /// The action at position `i` of `ALL`.
    pub fn at(i: usize) -> (r: ShortcutAction)
        requires
            i < 5,
        ensures
            r == action_at(i as int),
            action_index(r) == i,
    {
        if i == 0 {
            ShortcutAction::PlayPause
        } else if i == 1 {
            ShortcutAction::Next
        } else if i == 2 {
            ShortcutAction::Previous
        } else if i == 3 {
            ShortcutAction::SeekForward10
        } else {
            ShortcutAction::SeekBackward10
        }
    }

    /// The name this action goes by in validation messages.
    pub fn field_name(self) -> (r: &'static str)
        ensures
            r@ == spec_field_name(self),
    {
        match self {
            ShortcutAction::PlayPause => "play/pause",
            ShortcutAction::Next => "next",
            ShortcutAction::Previous => "previous",
            ShortcutAction::SeekForward10 => "seek forward",
            ShortcutAction::SeekBackward10 => "seek backward",
        }
    }
}

/// The global shortcut text bound to each action.
#[derive(Debug, PartialEq, Eq)]
pub struct ShortcutSettings {
    pub play_pause: String,
    pub next: String,
    pub previous: String,
    pub seek_forward_10: String,
    pub seek_backward_10: String,
}

impl Clone for ShortcutSettings {
    fn clone(&self) -> (r: Self)
        ensures
            r == *self,
    {
        ShortcutSettings {
            play_pause: self.play_pause.clone(),
            next: self.next.clone(),
            previous: self.previous.clone(),
            seek_forward_10: self.seek_forward_10.clone(),
            seek_backward_10: self.seek_backward_10.clone(),
        }
    }
}

/// The shortcut texts a fresh installation starts with, in `ALL` order.
pub open spec fn default_shortcut_texts() -> Seq<Seq<char>> {
    seq![
        "Ctrl+Alt+Space"@,
        "Ctrl+Alt+Right"@,
        "Ctrl+Alt+Left"@,
        "Ctrl+Alt+Shift+Right"@,
        "Ctrl+Alt+Shift+Left"@,
    ]
}

impl Default for ShortcutSettings {
    fn default() -> (r: Self)
        ensures
            r.texts() == default_shortcut_texts(),
    {
        ShortcutSettings {
            play_pause: String::from_str("Ctrl+Alt+Space"),
            next: String::from_str("Ctrl+Alt+Right"),
            previous: String::from_str("Ctrl+Alt+Left"),
            seek_forward_10: String::from_str("Ctrl+Alt+Shift+Right"),
            seek_backward_10: String::from_str("Ctrl+Alt+Shift+Left"),
        }
    }
}

/// The length in UTF-8 bytes that `str::len` reports for a text.
pub open spec fn byte_len(t: Seq<char>) -> usize {
    encode_utf8(t).len() as usize
}

/// The pieces of a shortcut between `+` signs, each trimmed and lowered.
pub open spec fn cleaned_parts(s: Seq<char>) -> Seq<Seq<char>> {
    split_on(s, '+').map_values(|p: Seq<char>| ascii_lower(trim(p)))
}

/// The form two shortcuts share exactly when they differ only in letter
/// case, spacing around `+`, and the order of their parts.
pub open spec fn normalized_shortcut(s: Seq<char>) -> Seq<char> {
    join_with(sorted_arrangement(cleaned_parts(s)), '+')
}

/// The key under which a shortcut text is compared for duplicates.
pub open spec fn duplicate_key(t: Seq<char>) -> Seq<char> {
    normalized_shortcut(trim(t))
}

/// The duplicate keys of the given shortcut texts.
pub open spec fn duplicate_keys(texts: Seq<Seq<char>>) -> Seq<Seq<char>> {
    texts.map_values(|t: Seq<char>| duplicate_key(t))
}

/// The first position at or after `j` where `keys` holds `k`.
pub open spec fn find_key(keys: Seq<Seq<char>>, k: Seq<char>, j: int) -> Option<int>
    decreases keys.len() - j,
{
    if j < 0 || j >= keys.len() {
        None
    } else if keys[j] == k {
        Some(j)
    } else {
        find_key(keys, k, j + 1)
    }
}

/// The first problem validation finds among the shortcut texts (in `ALL`
/// order) at positions `i` and later, each earlier one having passed.
pub open spec fn shortcut_problem(texts: Seq<Seq<char>>, i: int) -> Option<Seq<char>>
    decreases texts.len() - i,
{
    if i < 0 || i >= texts.len() {
        None
    } else {
        let t = texts[i];
        let name = spec_field_name(action_at(i));
        if trim(t).len() == 0 {
            Some(name + " shortcut cannot be empty"@)
        } else if byte_len(t) > MAX_SHORTCUT_LENGTH {
            Some(name + " shortcut exceeds the maximum length"@)
        } else {
            match find_key(duplicate_keys(texts).take(i), duplicate_key(t), 0) {
                Some(j) => Some(
                    spec_field_name(action_at(j)) + " and "@ + name + " use the same shortcut"@,
                ),
                None => shortcut_problem(texts, i + 1),
            }
        }
    }
}

/// Every shortcut is non-blank, within the length limit, and no two share a
/// duplicate key.
pub open spec fn shortcut_texts_valid(texts: Seq<Seq<char>>) -> bool {
    &&& forall|i: int| 0 <= i < texts.len() ==> trim(#[trigger] texts[i]).len() > 0
    &&& forall|i: int|
        0 <= i < texts.len() ==> byte_len(#[trigger] texts[i]) <= MAX_SHORTCUT_LENGTH
    &&& forall|i: int, j: int|
        0 <= i < j < texts.len() ==> duplicate_key(#[trigger] texts[i]) != duplicate_key(
            #[trigger] texts[j],
        )
}

impl ShortcutSettings {
    /// The shortcut texts in `ALL` order.
    pub open spec fn texts(self) -> Seq<Seq<char>> {
        seq![
            self.play_pause@,
            self.next@,
            self.previous@,
            self.seek_forward_10@,
            self.seek_backward_10@,
        ]
    }

    /// The shortcut text bound to `a`.
    pub open spec fn text_of(self, a: ShortcutAction) -> Seq<char> {
        self.texts()[action_index(a)]
    }

    /// The problem validation reports, if any.
    pub open spec fn problem(self) -> Option<Seq<char>> {
        shortcut_problem(self.texts(), 0)
    }

    /// The shortcut text bound to `action`.
    pub fn get(&self, action: ShortcutAction) -> (r: &str)
        ensures
            r@ == self.text_of(action),
    {
        match action {
            ShortcutAction::PlayPause => self.play_pause.as_str(),
            ShortcutAction::Next => self.next.as_str(),
            ShortcutAction::Previous => self.previous.as_str(),
            ShortcutAction::SeekForward10 => self.seek_forward_10.as_str(),
            ShortcutAction::SeekBackward10 => self.seek_backward_10.as_str(),
        }
    }

    /// Binds `shortcut` to `action`, leaving the other actions unchanged.
    pub fn set(&mut self, action: ShortcutAction, shortcut: String)
        ensures
            final(self).texts() == old(self).texts().update(action_index(action), shortcut@),
    {
        match action {
            ShortcutAction::PlayPause => self.play_pause = shortcut,
            ShortcutAction::Next => self.next = shortcut,
            ShortcutAction::Previous => self.previous = shortcut,
            ShortcutAction::SeekForward10 => self.seek_forward_10 = shortcut,
            ShortcutAction::SeekBackward10 => self.seek_backward_10 = shortcut,
        }
        assert(final(self).texts() =~= old(self).texts().update(action_index(action), shortcut@));
    }

    /// Each action paired with its shortcut text, in `ALL` order.
    pub fn entries(&self) -> (r: Vec<(ShortcutAction, String)>)
        ensures
            r@.len() == 5,
            forall|i: int|
                0 <= i < 5 ==> (#[trigger] r@[i]).0 == action_at(i) && r@[i].1@ == self.texts()[i],
    {
        let mut out: Vec<(ShortcutAction, String)> = Vec::new();
        let mut i: usize = 0;
        while i < 5
            invariant
                i <= 5,
                out@.len() == i,
                forall|k: int|
                    0 <= k < i ==> (#[trigger] out@[k]).0 == action_at(k) && out@[k].1@
                        == self.texts()[k],
            decreases 5 - i,
        {
            let action = ShortcutAction::at(i);
            out.push((action, String::from_str(self.get(action))));
            i = i + 1;
        }
        out
    }

    /// An iterator over each action and its shortcut text, in `ALL` order.
    pub fn iter(&self) -> (r: std::vec::IntoIter<(ShortcutAction, String)>)
        ensures
            vstd::std_specs::iter::IteratorSpec::remaining(&r).len() == 5,
            forall|i: int|
                0 <= i < 5 ==> (#[trigger] vstd::std_specs::iter::IteratorSpec::remaining(
                    &r,
                )[i]).0 == action_at(i) && vstd::std_specs::iter::IteratorSpec::remaining(
                    &r,
                )[i].1@ == self.texts()[i],
    {
        broadcast use vstd::std_specs::vec::axiom_spec_into_iter;

        let v = self.entries();
        v.into_iter()
    }

    /// Checks every shortcut in `ALL` order: it must not be blank, must fit
    /// `MAX_SHORTCUT_LENGTH` bytes, and must not duplicate an earlier one up
    /// to letter case, spacing and part order. Reports the first problem.
    pub fn validate(&self) -> (r: Result<(), String>)
        ensures
            r is Ok <==> self.problem() is None,
            r matches Err(e) ==> self.problem() == Some(e@),
    {
        let ghost texts = self.texts();
        let mut keys: Vec<Vec<char>> = Vec::new();
        let mut i: usize = 0;
        while i < 5
            invariant
                i <= 5,
                texts == self.texts(),
                keys@.len() == i,
                forall|k: int| 0 <= k < i ==> (#[trigger] keys@[k])@ == duplicate_keys(texts)[k],
                shortcut_problem(texts, 0) == shortcut_problem(texts, i as int),
            decreases 5 - i,
        {
            let action = ShortcutAction::at(i);
            let shortcut = self.get(action);
            let chars = chars_of(shortcut);
            let trimmed = trim_chars(chars.as_slice());
            assert(shortcut@ == texts[i as int]);
            assert(trimmed@ == trim(texts[i as int]));
            if trimmed.len() == 0 {
                return Err(concat_str(action.field_name(), " shortcut cannot be empty"));
            }
            if shortcut.len() > MAX_SHORTCUT_LENGTH {
                return Err(concat_str(action.field_name(), " shortcut exceeds the maximum length"));
            }
            assert(byte_len(texts[i as int]) <= MAX_SHORTCUT_LENGTH);
            let key = normalize_chars(trimmed.as_slice());
            let ghost prefix = duplicate_keys(texts).take(i as int);
            assert(key@ == duplicate_key(texts[i as int]));
            let mut j: usize = 0;
            while j < keys.len()
                invariant
                    i < 5,
                    texts == self.texts(),
                    trim(texts[i as int]).len() > 0,
                    byte_len(texts[i as int]) <= MAX_SHORTCUT_LENGTH,
                    shortcut_problem(texts, 0) == shortcut_problem(texts, i as int),
                    key@ == duplicate_key(texts[i as int]),
                    action == action_at(i as int),
                    j <= keys@.len() == i,
                    prefix == duplicate_keys(texts).take(i as int),
                    forall|k: int| 0 <= k < i ==> (#[trigger] keys@[k])@ == duplicate_keys(texts)[k],
                    find_key(prefix, key@, 0) == find_key(prefix, key@, j as int),
                decreases keys@.len() - j,
            {
                assert(keys@[j as int]@ == duplicate_keys(texts)[j as int]);
                assert(prefix[j as int] == duplicate_keys(texts)[j as int]);
                if chars_equal(keys[j].as_slice(), key.as_slice()) {
                    assert(find_key(prefix, key@, j as int) == Some(j as int));
                    let previous = ShortcutAction::at(j);
                    let mut message = concat_str(previous.field_name(), " and ");
                    message.append(action.field_name());
                    message.append(" use the same shortcut");
                    return Err(message);
                }
                j = j + 1;
            }
            proof {
                assert(find_key(prefix, key@, i as int) is None);
                assert(duplicate_keys(texts)[i as int] == duplicate_key(texts[i as int]));
                assert(trim(texts[i as int]).len() > 0);
                assert(byte_len(texts[i as int]) <= MAX_SHORTCUT_LENGTH);
                assert(shortcut_problem(texts, i as int) == shortcut_problem(texts, i + 1));
            }
            keys.push(key);
            i = i + 1;
        }
        Ok(())
    }
}

/// The characters of a normalized shortcut (see `normalized_shortcut`).
fn normalize_chars(v: &[char]) -> (r: Vec<char>)
    ensures
        r@ == normalized_shortcut(v@),
{
    let pieces = split_chars(v, '+');
    let mut parts: Vec<Vec<char>> = Vec::new();
    let mut i: usize = 0;
    while i < pieces.len()
        invariant
            i <= pieces@.len() == split_on(v@, '+').len(),
            forall|k: int|
                0 <= k < pieces@.len() ==> (#[trigger] pieces@[k])@ == split_on(v@, '+')[k],
            parts@.len() == i,
            forall|k: int| 0 <= k < i ==> (#[trigger] parts@[k])@ == cleaned_parts(v@)[k],
        decreases pieces@.len() - i,
    {
        let trimmed = trim_chars(pieces[i].as_slice());
        let lowered = ascii_lower_chars(trimmed.as_slice());
        parts.push(lowered);
        i = i + 1;
    }
    let ghost cleaned = cleaned_parts(v@);
    assert(parts@.map_values(|p: Vec<char>| p@) =~= cleaned);
    let sorted = sort_lex(parts);
    proof {
        lemma_sorted_arrangement_unique(cleaned, sorted@.map_values(|p: Vec<char>| p@));
    }
    join_chars(&sorted, '+')
}

/// The normalized form of a shortcut, under which shortcuts that differ only
/// in letter case, spacing around `+`, or part order coincide.
pub fn normalize_for_duplicate_detection(shortcut: &str) -> (r: String)
    ensures
        r@ == normalized_shortcut(shortcut@),
{
    let chars = chars_of(shortcut);
    let normalized = normalize_chars(chars.as_slice());
    string_from_chars(normalized.as_slice())
}

/// Everything the application persists.
#[derive(Debug, PartialEq, Eq)]
pub struct AppSettings {
    pub schema_version: u32,
    pub application: ApplicationSettings,
    pub shortcuts: ShortcutSettings,
}

impl Clone for AppSettings {
    fn clone(&self) -> (r: Self)
        ensures
            r == *self,
    {
        AppSettings {
            schema_version: self.schema_version,
            application: self.application,
            shortcuts: self.shortcuts.clone(),
        }
    }
}

impl Default for AppSettings {
    fn default() -> (r: Self)
        ensures
            r.is_default(),
    {
        AppSettings {
            schema_version: CURRENT_SETTINGS_SCHEMA_VERSION,
            application: ApplicationSettings::default(),
            shortcuts: ShortcutSettings::default(),
        }
    }
}

impl AppSettings {
    /// These are the settings a fresh installation starts with.
    pub open spec fn is_default(self) -> bool {
        &&& self.schema_version == CURRENT_SETTINGS_SCHEMA_VERSION
        &&& self.application == default_application_settings()
        &&& self.shortcuts.texts() == default_shortcut_texts()
    }

    /// The problem validation reports, if any.
    pub open spec fn problem(self) -> Option<Seq<char>> {
        if self.schema_version != CURRENT_SETTINGS_SCHEMA_VERSION {
            Some(
                "unsupported settings schema version "@ + decimal(self.schema_version as nat)
                    + "; expected "@ + decimal(CURRENT_SETTINGS_SCHEMA_VERSION as nat),
            )
        } else {
            self.shortcuts.problem()
        }
    }

    /// Accepts only the current schema version and valid shortcuts.
    pub fn validate(&self) -> (r: Result<(), String>)
        ensures
            r is Ok <==> self.problem() is None,
            r matches Err(e) ==> self.problem() == Some(e@),
    {
        if self.schema_version != CURRENT_SETTINGS_SCHEMA_VERSION {
            let mut message = String::from_str("unsupported settings schema version ");
            let found = decimal_string(self.schema_version as u64);
            message.append(found.as_str());
            message.append("; expected ");
            let expected = decimal_string(CURRENT_SETTINGS_SCHEMA_VERSION as u64);
            message.append(expected.as_str());
            return Err(message);
        }
        self.shortcuts.validate()
    }
}

// ---------------------------------------------------------------------------
// Laws of shortcut validation
// ---------------------------------------------------------------------------

/// The shortcuts from position `i` on pass every check of validation.
pub open spec fn shortcuts_valid_from(texts: Seq<Seq<char>>, i: int) -> bool {
    forall|k: int|
        i <= k < texts.len() ==> {
            &&& trim(#[trigger] texts[k]).len() > 0
            &&& byte_len(texts[k]) <= MAX_SHORTCUT_LENGTH
            &&& forall|j: int| 0 <= j < k ==> duplicate_key(#[trigger] texts[j]) != duplicate_key(texts[k])
        }
}

proof fn lemma_find_key_none(keys: Seq<Seq<char>>, k: Seq<char>, j: int)
    requires
        0 <= j,
    ensures
        find_key(keys, k, j) is None <==> forall|m: int| j <= m < keys.len() ==> keys[m] != k,
    decreases keys.len() - j,
{
    if j < keys.len() {
        lemma_find_key_none(keys, k, j + 1);
    }
}

proof fn lemma_problem_none_from(texts: Seq<Seq<char>>, i: int)
    requires
        0 <= i <= texts.len(),
    ensures
        shortcut_problem(texts, i) is None <==> shortcuts_valid_from(texts, i),
    decreases texts.len() - i,
{
    if i < texts.len() {
        lemma_problem_none_from(texts, i + 1);
        let prefix = duplicate_keys(texts).take(i);
        lemma_find_key_none(prefix, duplicate_key(texts[i]), 0);
        assert forall|m: int| 0 <= m < i implies prefix[m] == duplicate_key(texts[m]) by {}
        if shortcuts_valid_from(texts, i) {
            assert(trim(texts[i]).len() > 0);
            assert forall|m: int| 0 <= m < prefix.len() implies prefix[m] != duplicate_key(
                texts[i],
            ) by {
                assert(duplicate_key(texts[m]) != duplicate_key(texts[i]));
            }
        }
        if shortcut_problem(texts, i) is None {
            assert forall|k: int| i <= k < texts.len() implies {
                &&& trim(#[trigger] texts[k]).len() > 0
                &&& byte_len(texts[k]) <= MAX_SHORTCUT_LENGTH
                &&& forall|j: int|
                    0 <= j < k ==> duplicate_key(#[trigger] texts[j]) != duplicate_key(texts[k])
            } by {
                if k == i {
                    assert forall|j: int| 0 <= j < k implies duplicate_key(#[trigger] texts[j])
                        != duplicate_key(texts[k]) by {
                        assert(prefix[j] != duplicate_key(texts[i]));
                    }
                }
            }
        }
    }
}

/// Validation accepts exactly the shortcut sets in which every shortcut is
/// non-blank, fits `MAX_SHORTCUT_LENGTH` bytes, and no two share a
/// duplicate key.
pub proof fn law_validation_accepts_exactly_valid_shortcuts(shortcuts: ShortcutSettings)
    ensures
        shortcuts.problem() is None <==> shortcut_texts_valid(shortcuts.texts()),
{
    let texts = shortcuts.texts();
    lemma_problem_none_from(texts, 0);
    if shortcut_texts_valid(texts) {
        assert forall|k: int| 0 <= k < texts.len() implies {
            &&& trim(#[trigger] texts[k]).len() > 0
            &&& byte_len(texts[k]) <= MAX_SHORTCUT_LENGTH
            &&& forall|j: int|
                0 <= j < k ==> duplicate_key(#[trigger] texts[j]) != duplicate_key(texts[k])
        } by {
            assert forall|j: int| 0 <= j < k implies duplicate_key(#[trigger] texts[j])
                != duplicate_key(texts[k]) by {
                assert(duplicate_key(texts[j]) != duplicate_key(texts[k]));
            }
        }
    }
    if shortcuts_valid_from(texts, 0) {
        assert forall|i: int, j: int| 0 <= i < j < texts.len() implies duplicate_key(
            #[trigger] texts[i],
        ) != duplicate_key(#[trigger] texts[j]) by {
            assert(trim(texts[j]).len() > 0);
        }
        assert forall|i: int| 0 <= i < texts.len() implies trim(#[trigger] texts[i]).len() > 0 by {}
    }
}

/// No cleaned part of a shortcut holds a `+`, and there is at least one.
proof fn lemma_cleaned_parts_lack_plus(s: Seq<char>)
    ensures
        cleaned_parts(s).len() >= 1,
        forall|i: int| 0 <= i < cleaned_parts(s).len() ==> !(#[trigger] cleaned_parts(s)[i]).contains('+'),
{
    lemma_split_nonempty(s, '+');
    lemma_split_pieces_lack_sep(s, '+');
    let pieces = split_on(s, '+');
    assert forall|i: int| 0 <= i < cleaned_parts(s).len() implies !(#[trigger] cleaned_parts(s)[i]).contains('+') by {
        let piece = pieces[i];
        let lowered = ascii_lower(trim(piece));
        assert(cleaned_parts(s)[i] == lowered);
        if lowered.contains('+') {
            let k = choose|k: int| 0 <= k < lowered.len() && lowered[k] == '+';
            assert(ascii_lower_char(trim(piece)[k]) == '+');
            assert(trim(piece)[k] == '+');
            assert(trim(piece).contains('+'));
            lemma_trim_keeps_chars(piece, '+');
            assert(!pieces[i].contains('+'));
        }
    }
}

/// Two shortcuts count as duplicates exactly when their parts between `+`
/// signs, each trimmed and with ASCII letters lowered, are the same up to
/// order: they differ only in letter case, spacing around `+` and the order
/// of their parts.
pub proof fn law_duplicates_differ_only_in_case_spacing_and_order(a: Seq<char>, b: Seq<char>)
    ensures
        normalized_shortcut(a) == normalized_shortcut(b) <==> cleaned_parts(a).to_multiset()
            == cleaned_parts(b).to_multiset(),
{
    let pa = cleaned_parts(a);
    let pb = cleaned_parts(b);
    lemma_sorted_arrangement_exists(pa);
    lemma_sorted_arrangement_exists(pb);
    if pa.to_multiset() == pb.to_multiset() {
        lemma_sorted_arrangement_of_same_elements(pa, pb);
    }
    if normalized_shortcut(a) == normalized_shortcut(b) {
        let sa = sorted_arrangement(pa);
        let sb = sorted_arrangement(pb);
        lemma_cleaned_parts_lack_plus(a);
        lemma_cleaned_parts_lack_plus(b);
        lemma_arrangement_lacks_plus(pa, sa);
        lemma_arrangement_lacks_plus(pb, sb);
        lemma_split_join(sa, '+');
        lemma_split_join(sb, '+');
        assert(sa == sb);
    }
}

/// A rearrangement of non-empty parts without `+` is non-empty and has no
/// part with `+`.
proof fn lemma_arrangement_lacks_plus(parts: Seq<Seq<char>>, q: Seq<Seq<char>>)
    requires
        parts.len() >= 1,
        forall|i: int| 0 <= i < parts.len() ==> !(#[trigger] parts[i]).contains('+'),
        q.to_multiset() == parts.to_multiset(),
    ensures
        q.len() >= 1,
        forall|i: int| 0 <= i < q.len() ==> !(#[trigger] q[i]).contains('+'),
{
    broadcast use vstd::seq_lib::group_to_multiset_ensures;

    parts.to_multiset_ensures();
    q.to_multiset_ensures();
    assert forall|i: int| 0 <= i < q.len() implies !(#[trigger] q[i]).contains('+') by {
        assert(q.contains(q[i]));
        assert(parts.to_multiset().count(q[i]) > 0);
        assert(parts.contains(q[i]));
        let k = choose|k: int| 0 <= k < parts.len() && parts[k] == q[i];
        assert(!parts[k].contains('+'));
    }
}

// ---------------------------------------------------------------------------
// The defaults are valid
// ---------------------------------------------------------------------------

proof fn lemma_encoded_length(t: Seq<char>)
    ensures
        encode_utf8(t).len() <= 4 * t.len(),
    decreases t.len(),
{
    if t.len() > 0 {
        lemma_encoded_length(t.drop_first());
    }
}

proof fn lemma_trim_plain(t: Seq<char>)
    requires
        t.len() > 0,
        !is_white_space(t[0]),
        !is_white_space(t.last()),
    ensures
        trim(t) == t,
{
}

/// The cleaned parts of `x + y + z`, three words without `+` or outer
/// white space.
proof fn lemma_three_parts(x: Seq<char>, y: Seq<char>, z: Seq<char>)
    requires
        !x.contains('+'),
        !y.contains('+'),
        !z.contains('+'),
        trim(x) == x,
        trim(y) == y,
        trim(z) == z,
    ensures
        cleaned_parts(x.push('+') + (y.push('+') + z)) == seq![ascii_lower(x), ascii_lower(y), ascii_lower(z)],
{
    lemma_split_concat(x, y.push('+') + z, '+');
    lemma_split_concat(y, z, '+');
    lemma_split_without_sep(x, '+');
    lemma_split_without_sep(y, '+');
    lemma_split_without_sep(z, '+');
    assert(split_on(x.push('+') + (y.push('+') + z), '+') =~= seq![x, y, z]);
    assert(cleaned_parts(x.push('+') + (y.push('+') + z)) =~= seq![
        ascii_lower(x),
        ascii_lower(y),
        ascii_lower(z),
    ]);
}

proof fn lemma_four_parts(w: Seq<char>, x: Seq<char>, y: Seq<char>, z: Seq<char>)
    requires
        !w.contains('+'),
        !x.contains('+'),
        !y.contains('+'),
        !z.contains('+'),
        trim(w) == w,
        trim(x) == x,
        trim(y) == y,
        trim(z) == z,
    ensures
        cleaned_parts(w.push('+') + (x.push('+') + (y.push('+') + z))) == seq![
            ascii_lower(w),
            ascii_lower(x),
            ascii_lower(y),
            ascii_lower(z),
        ],
{
    lemma_split_concat(w, x.push('+') + (y.push('+') + z), '+');
    lemma_split_concat(x, y.push('+') + z, '+');
    lemma_split_concat(y, z, '+');
    lemma_split_without_sep(w, '+');
    lemma_split_without_sep(x, '+');
    lemma_split_without_sep(y, '+');
    lemma_split_without_sep(z, '+');
    assert(split_on(w.push('+') + (x.push('+') + (y.push('+') + z)), '+') =~= seq![w, x, y, z]);
    assert(cleaned_parts(w.push('+') + (x.push('+') + (y.push('+') + z))) =~= seq![
        ascii_lower(w),
        ascii_lower(x),
        ascii_lower(y),
        ascii_lower(z),
    ]);
}

/// Sequences that differ in whether they hold `w` have different elements.
proof fn lemma_multisets_differ(p: Seq<Seq<char>>, q: Seq<Seq<char>>, w: Seq<char>)
    requires
        p.contains(w),
        !q.contains(w),
    ensures
        p.to_multiset() != q.to_multiset(),
{
    broadcast use vstd::seq_lib::group_to_multiset_ensures;

    p.to_multiset_ensures();
    q.to_multiset_ensures();
    assert(p.to_multiset().count(w) > 0);
    assert(q.to_multiset().count(w) == 0);
}

/// Sequences of different lengths have different elements.
proof fn lemma_multisets_differ_in_length(p: Seq<Seq<char>>, q: Seq<Seq<char>>)
    requires
        p.len() != q.len(),
    ensures
        p.to_multiset() != q.to_multiset(),
{
    broadcast use vstd::seq_lib::group_to_multiset_ensures;

    p.to_multiset_ensures();
    q.to_multiset_ensures();
}

/// The default shortcuts pass validation.
pub proof fn lemma_default_shortcuts_valid()
    ensures
        shortcut_texts_valid(default_shortcut_texts()),
{
    reveal_strlit("Ctrl+Alt+Space");
    reveal_strlit("Ctrl+Alt+Right");
    reveal_strlit("Ctrl+Alt+Left");
    reveal_strlit("Ctrl+Alt+Shift+Right");
    reveal_strlit("Ctrl+Alt+Shift+Left");
    let ctrl = seq!['C', 't', 'r', 'l'];
    let alt = seq!['A', 'l', 't'];
    let space = seq!['S', 'p', 'a', 'c', 'e'];
    let right = seq!['R', 'i', 'g', 'h', 't'];
    let left = seq!['L', 'e', 'f', 't'];
    let shift = seq!['S', 'h', 'i', 'f', 't'];
    let texts = default_shortcut_texts();
    assert(texts[0] =~= ctrl.push('+') + (alt.push('+') + space));
    assert(texts[1] =~= ctrl.push('+') + (alt.push('+') + right));
    assert(texts[2] =~= ctrl.push('+') + (alt.push('+') + left));
    assert(texts[3] =~= ctrl.push('+') + (alt.push('+') + (shift.push('+') + right)));
    assert(texts[4] =~= ctrl.push('+') + (alt.push('+') + (shift.push('+') + left)));
    assert forall|w: Seq<char>| w == ctrl || w == alt || w == space || w == right || w == left || w == shift
        implies !w.contains('+') && trim(w) == w by {
        lemma_trim_plain(w);
        if w.contains('+') {
            let k = choose|k: int| 0 <= k < w.len() && w[k] == '+';
        }
    }
    lemma_three_parts(ctrl, alt, space);
    lemma_three_parts(ctrl, alt, right);
    lemma_three_parts(ctrl, alt, left);
    lemma_four_parts(ctrl, alt, shift, right);
    lemma_four_parts(ctrl, alt, shift, left);
    let lc = ascii_lower(ctrl);
    let la = ascii_lower(alt);
    let lsp = ascii_lower(space);
    let lr = ascii_lower(right);
    let ll = ascii_lower(left);
    let lsh = ascii_lower(shift);
    assert(lc.len() == 4 && la.len() == 3 && lsp.len() == 5 && lr.len() == 5 && ll.len() == 4
        && lsh.len() == 5);
    assert(lsp[0] == 's' && lr[0] == 'r' && lsh[0] == 's');
    let p0 = seq![lc, la, lsp];
    let p1 = seq![lc, la, lr];
    let p2 = seq![lc, la, ll];
    let p3 = seq![lc, la, lsh, lr];
    let p4 = seq![lc, la, lsh, ll];
    assert(p0.contains(lsp) && !p1.contains(lsp) && !p2.contains(lsp)) by {
        assert(p0[2] == lsp);
        assert(lr != lsp);
    }
    assert(p1.contains(lr) && !p2.contains(lr)) by {
        assert(p1[2] == lr);
    }
    assert(p3.contains(lr) && !p4.contains(lr)) by {
        assert(p3[3] == lr);
        assert(lsh != lr);
    }
    lemma_multisets_differ(p0, p1, lsp);
    lemma_multisets_differ(p0, p2, lsp);
    lemma_multisets_differ(p1, p2, lr);
    lemma_multisets_differ(p3, p4, lr);
    lemma_multisets_differ_in_length(p0, p3);
    lemma_multisets_differ_in_length(p0, p4);
    lemma_multisets_differ_in_length(p1, p3);
    lemma_multisets_differ_in_length(p1, p4);
    lemma_multisets_differ_in_length(p2, p3);
    lemma_multisets_differ_in_length(p2, p4);
    assert forall|i: int| 0 <= i < 5 implies trim(#[trigger] texts[i]) == texts[i] by {
        lemma_trim_plain(texts[i]);
    }
    assert forall|i: int, j: int| 0 <= i < j < 5 implies duplicate_key(#[trigger] texts[i])
        != duplicate_key(#[trigger] texts[j]) by {
        law_duplicates_differ_only_in_case_spacing_and_order(texts[i], texts[j]);
    }
    assert forall|i: int| 0 <= i < 5 implies byte_len(#[trigger] texts[i]) <= MAX_SHORTCUT_LENGTH by {
        lemma_encoded_length(texts[i]);
    }
}

/// The settings a fresh installation starts with pass validation.
pub proof fn law_defaults_are_valid(settings: AppSettings)
    requires
        settings.is_default(),
    ensures
        settings.problem() is None,
{
    lemma_default_shortcuts_valid();
    law_validation_accepts_exactly_valid_shortcuts(settings.shortcuts);
}

/// Binding a shortcut to an action (`set`) makes `get` return it for that
/// action and leaves every other action's shortcut unchanged.
pub proof fn law_set_binds_only_its_action(
    before: ShortcutSettings,
    after: ShortcutSettings,
    action: ShortcutAction,
    shortcut: Seq<char>,
    other: ShortcutAction,
)
    requires
        after.texts() == before.texts().update(action_index(action), shortcut),
    ensures
        after.text_of(action) == shortcut,
        other != action ==> after.text_of(other) == before.text_of(other),
{
}

} // verus!
