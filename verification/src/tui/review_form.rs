//! The review form shown before a task is saved: its fields, the order the
//! cursor moves through them, and what it hands back.

use vstd::prelude::*;
use crate::dates::{due_preset, due_presets, DUE_PRESET_COUNT};
use crate::commands::info::{next_priority, prev_priority, stepped_priority};
use crate::dates::{due_spec, is_valid_due, iso_date_end, UtcTime};
use crate::model::Priority;
use crate::text::{concat3, owned, str_eq, trim, trim_spec};
use crate::tui::{piece_view, Piece, Tone};

verus! {

/// What the form hands back on submit (and starts out from).
#[derive(Clone, Debug)]
pub struct FormInput {
    pub description: String,
    pub project: String,
    pub priority: Option<Priority>,
    pub due: String,
    pub tags: String,
    pub selected_deps: Vec<usize>,
    pub selected_files: Vec<usize>,
}

/// Input to the form: existing data and the choices on offer.
pub struct FormContext {
    pub initial: FormInput,
    /// `(display id, description)` of the tasks that can be depended on.
    pub available_deps: Vec<(String, String)>,
    pub available_files: Vec<String>,
    /// Which dependencies the model suggested.
    pub suggested_dep_indices: Vec<usize>,
    /// Which files the model suggested.
    pub suggested_file_indices: Vec<usize>,
}

#[derive(Clone, Copy, Debug, PartialEq, Eq, Structural)]
pub enum Focus {
    Description,
    Project,
    Priority,
    Due,
    Tags,
    Dependencies,
    Files,
    Submit,
    Cancel,
}

/// How many places the cursor can be.
pub const FOCUS_COUNT: usize = 9;

/// Position of each place in the cursor's cycle.
pub open spec fn focus_pos(f: Focus) -> int {
    match f {
        Focus::Description => 0,
        Focus::Project => 1,
        Focus::Priority => 2,
        Focus::Due => 3,
        Focus::Tags => 4,
        Focus::Dependencies => 5,
        Focus::Files => 6,
        Focus::Submit => 7,
        Focus::Cancel => 8,
    }
}

pub open spec fn focus_at_spec(i: int) -> Focus {
    if i == 0 {
        Focus::Description
    } else if i == 1 {
        Focus::Project
    } else if i == 2 {
        Focus::Priority
    } else if i == 3 {
        Focus::Due
    } else if i == 4 {
        Focus::Tags
    } else if i == 5 {
        Focus::Dependencies
    } else if i == 6 {
        Focus::Files
    } else if i == 7 {
        Focus::Submit
    } else {
        Focus::Cancel
    }
}

fn focus_index(f: Focus) -> (r: usize)
    ensures
        r == focus_pos(f),
{
    match f {
        Focus::Description => 0,
        Focus::Project => 1,
        Focus::Priority => 2,
        Focus::Due => 3,
        Focus::Tags => 4,
        Focus::Dependencies => 5,
        Focus::Files => 6,
        Focus::Submit => 7,
        Focus::Cancel => 8,
    }
}

pub fn focus_at(i: usize) -> (r: Focus)
    requires
        i < FOCUS_COUNT,
    ensures
        r == focus_at_spec(i as int),
{
    match i {
        0 => Focus::Description,
        1 => Focus::Project,
        2 => Focus::Priority,
        3 => Focus::Due,
        4 => Focus::Tags,
        5 => Focus::Dependencies,
        6 => Focus::Files,
        7 => Focus::Submit,
        _ => Focus::Cancel,
    }
}

/// The place after `f`, wrapping from Cancel back to Description.
pub fn next_focus(f: Focus) -> (r: Focus)
    ensures
        r == focus_at_spec((focus_pos(f) + 1) % 9),
{
    focus_at((focus_index(f) + 1) % FOCUS_COUNT)
}

/// The place before `f`, wrapping from Description back to Cancel.
pub fn prev_focus(f: Focus) -> (r: Focus)
    ensures
        r == focus_at_spec((focus_pos(f) + 8) % 9),
{
    focus_at((focus_index(f) + FOCUS_COUNT - 1) % FOCUS_COUNT)
}

/// Moving the cursor back undoes moving it forward, and the other way round.
pub proof fn lemma_focus_cycle(f: Focus)
    ensures
        focus_at_spec((focus_pos(focus_at_spec((focus_pos(f) + 1) % 9)) + 8) % 9) == f,
        focus_at_spec((focus_pos(focus_at_spec((focus_pos(f) + 8) % 9)) + 1) % 9) == f,
{
}

/// One check box per choice, ticked for the in-range `indices`.
pub fn selection_flags(n: usize, indices: &Vec<usize>) -> (r: Vec<bool>)
    ensures
        r@.len() == n,
        forall|i: int| 0 <= i < n ==> (r@[i] <==> indices@.contains(i as usize)),
{
    let mut flags: Vec<bool> = Vec::new();
    let mut i: usize = 0;
    while i < n
        invariant
            i <= n,
            flags@.len() == i,
            forall|k: int| 0 <= k < i ==> !flags@[k],
        decreases n - i,
    {
        flags.push(false);
        i = i + 1;
    }
    let mut j: usize = 0;
    while j < indices.len()
        invariant
            j <= indices@.len(),
            flags@.len() == n,
            forall|k: int| 0 <= k < n ==> (flags@[k] <==> indices@.take(j as int).contains(k as usize)),
        decreases indices@.len() - j,
    {
        let x = indices[j];
        proof {
            assert(indices@.take(j + 1) =~= indices@.take(j as int).push(x));
        }
        if x < n {
            flags.set(x, true);
        }
        proof {
            assert forall|k: int| 0 <= k < n implies (flags@[k] <==> indices@.take(j + 1).contains(
                k as usize,
            )) by {
                if k == x as int {
                    assert(indices@.take(j + 1)[j as int] == x);
                } else {
                    if indices@.take(j + 1).contains(k as usize) {
                        let w = choose|w: int|
                            0 <= w < j + 1 && #[trigger] indices@.take(j + 1)[w] == k as usize;
                        assert(indices@.take(j as int)[w] == k as usize);
                    }
                    if indices@.take(j as int).contains(k as usize) {
                        let w = choose|w: int|
                            0 <= w < j && #[trigger] indices@.take(j as int)[w] == k as usize;
                        assert(indices@.take(j + 1)[w] == k as usize);
                    }
                }
            }
        }
        j = j + 1;
    }
    assert(indices@.take(indices@.len() as int) =~= indices@);
    flags
}

/// The positions of the ticked boxes, ascending.
pub fn selected_indices(flags: &Vec<bool>) -> (r: Vec<usize>)
    ensures
        forall|a: int, b: int| 0 <= a < b < r@.len() ==> r@[a] < r@[b],
        forall|i: usize| #[trigger] r@.contains(i) <==> (i < flags@.len() && flags@[i as int]),
{
    let mut out: Vec<usize> = Vec::new();
    let mut i: usize = 0;
    while i < flags.len()
        invariant
            i <= flags@.len(),
            forall|a: int, b: int| 0 <= a < b < out@.len() ==> out@[a] < out@[b],
            forall|a: int| 0 <= a < out@.len() ==> out@[a] < i,
            forall|x: usize| #[trigger] out@.contains(x) <==> (x < i && flags@[x as int]),
        decreases flags@.len() - i,
    {
        if flags[i] {
            let ghost before = out@;
            out.push(i);
            proof {
                assert forall|x: usize| #[trigger] out@.contains(x) <==> (x < i + 1 && flags@[x as int]) by {
                    if x == i {
                        assert(out@[before.len() as int] == i);
                    } else if out@.contains(x) {
                        let w = choose|w: int| 0 <= w < out@.len() && out@[w] == x;
                        assert(before[w] == x);
                        assert(before.contains(x));
                    } else if x < i && flags@[x as int] {
                        assert(before.contains(x));
                        let w = choose|w: int| 0 <= w < before.len() && before[w] == x;
                        assert(out@[w] == x);
                    }
                }
            }
        }
        i = i + 1;
    }
    out
}

/// Tick or untick the box under the cursor, if the cursor is on one.
pub fn toggle(flags: &mut Vec<bool>, selected: Option<usize>)
    ensures
        final(flags)@.len() == old(flags)@.len(),
        match selected {
            Some(i) => if i < old(flags)@.len() {
                final(flags)@ == old(flags)@.update(i as int, !old(flags)@[i as int])
            } else {
                final(flags)@ == old(flags)@
            },
            None => final(flags)@ == old(flags)@,
        },
{
    match selected {
        Some(i) => {
            if i < flags.len() {
                let v = flags[i];
                flags.set(i, !v);
            }
        },
        None => {},
    }
}

/// The first preset the trimmed text equals, if any.
pub open spec fn preset_position(text: Seq<char>) -> Option<int> {
    if exists|i: int| 0 <= i < 9 && due_presets()[i] == trim_spec(text) {
        Some(
            choose|i: int|
                0 <= i < 9 && due_presets()[i] == trim_spec(text) && forall|j: int|
                    0 <= j < i ==> due_presets()[j] != trim_spec(text),
        )
    } else {
        None
    }
}

/// The preset the Due field moves to from `text`: the one after (or before)
/// the preset the text matches, wrapping around; counting from the first
/// preset when it matches none.
pub open spec fn preset_step(text: Seq<char>, forward: bool) -> int {
    let cur = match preset_position(text) {
        Some(i) => i,
        None => 0,
    };
    if forward {
        (cur + 1) % 9
    } else {
        (cur + 8) % 9
    }
}

pub fn next_due_preset(text: &str, forward: bool) -> (r: usize)
    ensures
        r < DUE_PRESET_COUNT,
        r == preset_step(text@, forward),
{
    let t = trim(text);
    let mut cur: usize = 0;
    let mut k: usize = 0;
    let mut found = false;
    while k < DUE_PRESET_COUNT
        invariant
            k <= DUE_PRESET_COUNT,
            t@ == trim_spec(text@),
            !found ==> cur == 0 && forall|j: int| 0 <= j < k ==> due_presets()[j] != t@,
            found ==> cur < 9 && due_presets()[cur as int] == t@ && forall|j: int|
                0 <= j < cur ==> due_presets()[j] != t@,
        decreases DUE_PRESET_COUNT - k,
    {
        if !found && str_eq(due_preset(k), t) {
            cur = k;
            found = true;
        }
        k = k + 1;
    }
    proof {
        if found {
            assert(due_presets()[cur as int] == trim_spec(text@));
            let i = choose|i: int|
                0 <= i < 9 && due_presets()[i] == trim_spec(text@) && forall|j: int|
                    0 <= j < i ==> due_presets()[j] != trim_spec(text@);
            assert(i == cur);
        }
    }
    if forward {
        (cur + 1) % DUE_PRESET_COUNT
    } else {
        (cur + DUE_PRESET_COUNT - 1) % DUE_PRESET_COUNT
    }
}

/// The form can be submitted once the description is not blank and the
/// due text reads as a date.
pub fn can_submit(description: &str, due_error: bool) -> (r: bool)
    ensures
        r == (trim_spec(description@).len() > 0 && !due_error),
{
    trim(description).unicode_len() > 0 && !due_error
}

// ── the form's state and how keys move it ────────────────────────────────

/// A key press as the form tells keys apart.
#[derive(Clone, Copy, Debug, PartialEq, Eq, Structural)]
pub enum FormKey {
    Esc,
    /// Ctrl+S.
    Save,
    Tab,
    BackTab,
    Enter,
    Space,
    Left,
    Right,
    Up,
    Down,
    /// Any other key: it goes to the text field under the cursor.
    Other,
}

/// What the caller does after a key: nothing more, hand the key to the text
/// field of `Focus`, or replace the due text with the preset of that index
/// (and check it again with `validate_due`).
#[derive(Clone, Copy, Debug, PartialEq, Eq, Structural)]
pub enum FormAction {
    Nothing,
    EditText(Focus),
    SetDue(usize),
}

/// Everything the form decides on; the four text fields themselves stay
/// with the caller's editors.
pub struct FormState {
    pub focus: Focus,
    pub priority: Option<Priority>,
    /// The highlighted dependency row (`None` when there is none).
    pub dep_cursor: Option<usize>,
    /// The highlighted file row (`None` when there is none).
    pub file_cursor: Option<usize>,
    pub selected_deps: Vec<bool>,
    pub selected_files: Vec<bool>,
    pub submitted: bool,
    pub cancelled: bool,
    pub due_error: bool,
    pub due_preset_idx: usize,
}

/// The form's state as values.
pub struct FormView {
    pub focus: Focus,
    pub priority: Option<Priority>,
    pub dep_cursor: Option<usize>,
    pub file_cursor: Option<usize>,
    pub deps: Seq<bool>,
    pub files: Seq<bool>,
    pub submitted: bool,
    pub cancelled: bool,
    pub due_error: bool,
    pub due_preset_idx: int,
}

impl View for FormState {
    type V = FormView;

    open spec fn view(&self) -> FormView {
        FormView {
            focus: self.focus,
            priority: self.priority,
            dep_cursor: self.dep_cursor,
            file_cursor: self.file_cursor,
            deps: self.selected_deps@,
            files: self.selected_files@,
            submitted: self.submitted,
            cancelled: self.cancelled,
            due_error: self.due_error,
            due_preset_idx: self.due_preset_idx as int,
        }
    }
}

/// A list cursor sits on a row exactly when the list has rows.
pub open spec fn cursor_ok(c: Option<usize>, n: nat) -> bool {
    match c {
        Some(i) => i < n,
        None => n == 0,
    }
}

impl FormView {
    pub open spec fn wf(self) -> bool {
        &&& cursor_ok(self.dep_cursor, self.deps.len())
        &&& cursor_ok(self.file_cursor, self.files.len())
        &&& 0 <= self.due_preset_idx < 9
    }
}

/// The cursor one row up (stopping at the top).
pub open spec fn cursor_up(c: Option<usize>) -> Option<usize> {
    match c {
        Some(i) => Some(if i == 0 { 0 } else { (i - 1) as usize }),
        None => None,
    }
}

/// The cursor one row down (stopping at the last of `n` rows).
pub open spec fn cursor_down(c: Option<usize>, n: nat) -> Option<usize> {
    match c {
        Some(i) => Some(if i + 1 < n { (i + 1) as usize } else { (n - 1) as usize }),
        None => None,
    }
}

/// The boxes with the one under the cursor flipped.
pub open spec fn flipped(flags: Seq<bool>, c: Option<usize>) -> Seq<bool> {
    match c {
        Some(i) => if i < flags.len() {
            flags.update(i as int, !flags[i as int])
        } else {
            flags
        },
        None => flags,
    }
}

/// The state after one key, with the description and due texts as they
/// stand, and what the caller does next.
pub open spec fn form_step(s: FormView, key: FormKey, desc: Seq<char>, due: Seq<char>) -> (
    FormView,
    FormAction,
) {
    let can = trim_spec(desc).len() > 0 && !s.due_error;
    let next = focus_at_spec((focus_pos(s.focus) + 1) % 9);
    let prev = focus_at_spec((focus_pos(s.focus) + 8) % 9);
    let text_field = s.focus == Focus::Description || s.focus == Focus::Project || s.focus
        == Focus::Due || s.focus == Focus::Tags;
    let to_text = if text_field {
        FormAction::EditText(s.focus)
    } else {
        FormAction::Nothing
    };
    match key {
        FormKey::Esc => (FormView { cancelled: true, ..s }, FormAction::Nothing),
        FormKey::Save => (FormView { submitted: s.submitted || can, ..s }, FormAction::Nothing),
        FormKey::Tab => (FormView { focus: next, ..s }, FormAction::Nothing),
        FormKey::BackTab => (FormView { focus: prev, ..s }, FormAction::Nothing),
        FormKey::Enter => match s.focus {
            Focus::Submit => (FormView { submitted: s.submitted || can, ..s }, FormAction::Nothing),
            Focus::Cancel => (FormView { cancelled: true, ..s }, FormAction::Nothing),
            Focus::Dependencies => (
                FormView { deps: flipped(s.deps, s.dep_cursor), ..s },
                FormAction::Nothing,
            ),
            Focus::Files => (
                FormView { files: flipped(s.files, s.file_cursor), ..s },
                FormAction::Nothing,
            ),
            _ => (FormView { focus: next, ..s }, FormAction::Nothing),
        },
        FormKey::Space => match s.focus {
            Focus::Dependencies => (
                FormView { deps: flipped(s.deps, s.dep_cursor), ..s },
                FormAction::Nothing,
            ),
            Focus::Files => (
                FormView { files: flipped(s.files, s.file_cursor), ..s },
                FormAction::Nothing,
            ),
            _ => (s, FormAction::Nothing),
        },
        FormKey::Left => if s.focus == Focus::Priority {
            (FormView { priority: prev_priority(s.priority), ..s }, FormAction::Nothing)
        } else if s.focus == Focus::Due {
            let k = preset_step(due, false);
            (FormView { due_preset_idx: k, ..s }, FormAction::SetDue(k as usize))
        } else {
            (s, to_text)
        },
        FormKey::Right => if s.focus == Focus::Priority {
            (FormView { priority: next_priority(s.priority), ..s }, FormAction::Nothing)
        } else if s.focus == Focus::Due {
            let k = preset_step(due, true);
            (FormView { due_preset_idx: k, ..s }, FormAction::SetDue(k as usize))
        } else {
            (s, to_text)
        },
        FormKey::Up => match s.focus {
            Focus::Dependencies => (
                FormView { dep_cursor: cursor_up(s.dep_cursor), ..s },
                FormAction::Nothing,
            ),
            Focus::Files => (
                FormView { file_cursor: cursor_up(s.file_cursor), ..s },
                FormAction::Nothing,
            ),
            _ => (FormView { focus: prev, ..s }, FormAction::Nothing),
        },
        FormKey::Down => match s.focus {
            Focus::Dependencies => (
                FormView { dep_cursor: cursor_down(s.dep_cursor, s.deps.len()), ..s },
                FormAction::Nothing,
            ),
            Focus::Files => (
                FormView { file_cursor: cursor_down(s.file_cursor, s.files.len()), ..s },
                FormAction::Nothing,
            ),
            _ => (FormView { focus: next, ..s }, FormAction::Nothing),
        },
        FormKey::Other => (s, to_text),
    }
}

fn first_row(n: usize) -> (r: Option<usize>)
    ensures
        cursor_ok(r, n as nat),
        r == (if n > 0 { Some(0usize) } else { None }),
{
    if n > 0 {
        Some(0)
    } else {
        None
    }
}

fn row_up(c: Option<usize>) -> (r: Option<usize>)
    ensures
        r == cursor_up(c),
{
    match c {
        Some(i) => Some(if i == 0 { 0 } else { i - 1 }),
        None => None,
    }
}

fn row_down(c: Option<usize>, n: usize) -> (r: Option<usize>)
    requires
        cursor_ok(c, n as nat),
    ensures
        r == cursor_down(c, n as nat),
        cursor_ok(r, n as nat),
{
    match c {
        Some(i) => Some(if i + 1 < n { i + 1 } else { n - 1 }),
        None => None,
    }
}

impl FormState {
    /// The form as it opens: cursor on the description, the initial choices
    /// ticked, each list's cursor on its first row.
    pub fn new(ctx: &FormContext) -> (r: FormState)
        ensures
            r@.wf(),
            r@.focus == Focus::Description,
            r@.priority == ctx.initial.priority,
            r@.deps.len() == ctx.available_deps@.len(),
            r@.files.len() == ctx.available_files@.len(),
            forall|i: int| 0 <= i < r@.deps.len() ==> (r@.deps[i] <==> ctx.initial.selected_deps@.contains(i as usize)),
            forall|i: int| 0 <= i < r@.files.len() ==> (r@.files[i] <==> ctx.initial.selected_files@.contains(i as usize)),
            r@.dep_cursor == (if ctx.available_deps@.len() > 0 { Some(0usize) } else { None }),
            r@.file_cursor == (if ctx.available_files@.len() > 0 { Some(0usize) } else { None }),
            !r@.submitted,
            !r@.cancelled,
            !r@.due_error,
            r@.due_preset_idx == 0,
    {
        let n_deps = ctx.available_deps.len();
        let n_files = ctx.available_files.len();
        FormState {
            focus: Focus::Description,
            priority: ctx.initial.priority,
            dep_cursor: first_row(n_deps),
            file_cursor: first_row(n_files),
            selected_deps: selection_flags(n_deps, &ctx.initial.selected_deps),
            selected_files: selection_flags(n_files, &ctx.initial.selected_files),
            submitted: false,
            cancelled: false,
            due_error: false,
            due_preset_idx: 0,
        }
    }

    /// Mark the due text as wrong exactly when it does not read as a date
    /// (see `is_valid_due`); nothing else changes.
    pub fn validate_due(&mut self, due_text: &str)
        ensures
            final(self)@ == (FormView { due_error: final(self).due_error, ..old(self)@ }),
            trim_spec(due_text@).len() == 0 ==> !final(self).due_error,
            iso_date_end(trim_spec(due_text@)) is Some ==> !final(self).due_error,
            !final(self).due_error ==> trim_spec(due_text@).len() == 0 || exists|
                now: UtcTime,
                natural: Option<UtcTime>,
            | (#[trigger] due_spec(trim_spec(due_text@), now, natural)) is Some,
    {
        self.due_error = !is_valid_due(due_text);
    }

    /// Handle one key, given the description and due texts as they stand.
    pub fn on_key(&mut self, key: FormKey, description: &str, due_text: &str) -> (r: FormAction)
        requires
            old(self)@.wf(),
        ensures
            final(self)@.wf(),
            (final(self)@, r) == form_step(old(self)@, key, description@, due_text@),
    {
        let can = trim(description).unicode_len() > 0 && !self.due_error;
        let text_field = match self.focus {
            Focus::Description | Focus::Project | Focus::Due | Focus::Tags => true,
            _ => false,
        };
        let to_text = if text_field {
            FormAction::EditText(self.focus)
        } else {
            FormAction::Nothing
        };
        match key {
            FormKey::Esc => {
                self.cancelled = true;
                FormAction::Nothing
            },
            FormKey::Save => {
                if can {
                    self.submitted = true;
                }
                FormAction::Nothing
            },
            FormKey::Tab => {
                self.focus = next_focus(self.focus);
                FormAction::Nothing
            },
            FormKey::BackTab => {
                self.focus = prev_focus(self.focus);
                FormAction::Nothing
            },
            FormKey::Enter => {
                match self.focus {
                    Focus::Submit => {
                        if can {
                            self.submitted = true;
                        }
                    },
                    Focus::Cancel => {
                        self.cancelled = true;
                    },
                    Focus::Dependencies => {
                        toggle(&mut self.selected_deps, self.dep_cursor);
                    },
                    Focus::Files => {
                        toggle(&mut self.selected_files, self.file_cursor);
                    },
                    _ => {
                        self.focus = next_focus(self.focus);
                    },
                }
                FormAction::Nothing
            },
            FormKey::Space => {
                match self.focus {
                    Focus::Dependencies => {
                        toggle(&mut self.selected_deps, self.dep_cursor);
                    },
                    Focus::Files => {
                        toggle(&mut self.selected_files, self.file_cursor);
                    },
                    _ => {},
                }
                FormAction::Nothing
            },
            FormKey::Left | FormKey::Right => {
                let forward = match key {
                    FormKey::Right => true,
                    _ => false,
                };
                if self.focus == Focus::Priority {
                    self.priority = stepped_priority(self.priority, forward);
                    FormAction::Nothing
                } else if self.focus == Focus::Due {
                    let k = next_due_preset(due_text, forward);
                    self.due_preset_idx = k;
                    FormAction::SetDue(k)
                } else {
                    to_text
                }
            },
            FormKey::Up => {
                match self.focus {
                    Focus::Dependencies => {
                        self.dep_cursor = row_up(self.dep_cursor);
                    },
                    Focus::Files => {
                        self.file_cursor = row_up(self.file_cursor);
                    },
                    _ => {
                        self.focus = prev_focus(self.focus);
                    },
                }
                FormAction::Nothing
            },
            FormKey::Down => {
                match self.focus {
                    Focus::Dependencies => {
                        self.dep_cursor = row_down(self.dep_cursor, self.selected_deps.len());
                    },
                    Focus::Files => {
                        self.file_cursor = row_down(self.file_cursor, self.selected_files.len());
                    },
                    _ => {
                        self.focus = next_focus(self.focus);
                    },
                }
                FormAction::Nothing
            },
            FormKey::Other => to_text,
        }
    }

    /// What the form hands back: the texts as given, the priority chosen and
    /// the ticked rows of each list, ascending.
    pub fn collect_result(&self, description: &str, project: &str, due: &str, tags: &str) -> (r:
        FormInput)
        ensures
            r.description@ == description@,
            r.project@ == project@,
            r.due@ == due@,
            r.tags@ == tags@,
            r.priority == self.priority,
            forall|a: int, b: int|
                0 <= a < b < r.selected_deps@.len() ==> r.selected_deps@[a] < r.selected_deps@[b],
            forall|i: usize| #[trigger]
                r.selected_deps@.contains(i) <==> (i < self.selected_deps@.len()
                    && self.selected_deps@[i as int]),
            forall|a: int, b: int|
                0 <= a < b < r.selected_files@.len() ==> r.selected_files@[a] < r.selected_files@[b],
            forall|i: usize| #[trigger]
                r.selected_files@.contains(i) <==> (i < self.selected_files@.len()
                    && self.selected_files@[i as int]),
    {
        FormInput {
            description: owned(description),
            project: owned(project),
            priority: self.priority,
            due: owned(due),
            tags: owned(tags),
            selected_deps: selected_indices(&self.selected_deps),
            selected_files: selected_indices(&self.selected_files),
        }
    }
}

/// Ticking a box twice leaves the boxes as they were.
pub proof fn lemma_flip_twice(flags: Seq<bool>, c: Option<usize>)
    ensures
        flipped(flipped(flags, c), c) == flags,
{
    assert(flipped(flipped(flags, c), c) =~= flags);
}

/// Every key keeps the form's state well formed: each list cursor stays on
/// a row of its list, and the preset index stays among the presets.
pub proof fn lemma_form_step_wf(s: FormView, key: FormKey, desc: Seq<char>, due: Seq<char>)
    requires
        s.wf(),
    ensures
        form_step(s, key, desc, due).0.wf(),
{
}

/// A key submits the form only when the description is not blank and the
/// due text reads as a date; submitted stays submitted.
pub proof fn lemma_submit_needs_valid_input(s: FormView, key: FormKey, desc: Seq<char>, due: Seq<char>)
    ensures
        form_step(s, key, desc, due).0.submitted && !s.submitted ==> trim_spec(desc).len() > 0
            && !s.due_error,
        s.submitted ==> form_step(s, key, desc, due).0.submitted,
{
}

// ── what the form shows ───────────────────────────────────────────────────

/// The title over a field; the due field's title turns into a warning
/// while its text is not a date.
pub open spec fn field_title_text(f: Focus, due_error: bool) -> Seq<char> {
    match f {
        Focus::Description => "Description"@,
        Focus::Project => "Project"@,
        Focus::Priority => "Priority  ←/→ to cycle"@,
        Focus::Due => if due_error {
            "Due  ⚠ invalid date"@
        } else {
            "Due  ←/→ presets, or type (2026-06-20, friday, +3d)"@
        },
        Focus::Tags => "Tags  (comma-separated)"@,
        Focus::Dependencies => "Dependencies  (space to toggle)"@,
        Focus::Files => "Relevant Files  (space to toggle)"@,
        Focus::Submit => " ✔  Save  (Ctrl+S)"@,
        Focus::Cancel => " ✖  Cancel  (Esc)"@,
    }
}

pub fn field_title(f: Focus, due_error: bool) -> (r: &'static str)
    ensures
        r@ == field_title_text(f, due_error),
{
    match f {
        Focus::Description => "Description",
        Focus::Project => "Project",
        Focus::Priority => "Priority  ←/→ to cycle",
        Focus::Due => if due_error {
            "Due  ⚠ invalid date"
        } else {
            "Due  ←/→ presets, or type (2026-06-20, friday, +3d)"
        },
        Focus::Tags => "Tags  (comma-separated)",
        Focus::Dependencies => "Dependencies  (space to toggle)",
        Focus::Files => "Relevant Files  (space to toggle)",
        Focus::Submit => " ✔  Save  (Ctrl+S)",
        Focus::Cancel => " ✖  Cancel  (Esc)",
    }
}

/// What the priority field shows: the level with its name, coloured by
/// urgency, or a grey `None`.
pub open spec fn priority_choice(p: Option<Priority>) -> (Seq<char>, Tone) {
    match p {
        None => ("None"@, Tone::Dim),
        Some(Priority::L) => ("L  (Low)"@, Tone::Good),
        Some(Priority::M) => ("M  (Medium)"@, Tone::Warn),
        Some(Priority::H) => ("H  (High)"@, Tone::Bad),
    }
}

pub fn priority_piece(p: Option<Priority>) -> (r: Piece)
    ensures
        piece_view(r) == priority_choice(p),
{
    let (text, tone) = match p {
        None => ("None", Tone::Dim),
        Some(Priority::L) => ("L  (Low)", Tone::Good),
        Some(Priority::M) => ("M  (Medium)", Tone::Warn),
        Some(Priority::H) => ("H  (High)", Tone::Bad),
    };
    Piece { text: owned(text), tone }
}

/// A row of a list of choices: a ticked or an empty box before the label;
/// green when ticked, else dark grey italic when suggested, else plain.
pub open spec fn choice_row(label: Seq<char>, ticked: bool, suggested: bool) -> (Seq<char>, Tone) {
    (
        (if ticked { "☑"@ } else { "☐"@ }) + " "@ + label,
        if ticked {
            Tone::Good
        } else if suggested {
            Tone::DimItalic
        } else {
            Tone::Plain
        },
    )
}

/// Whether `i` is among `v`.
fn holds_index(v: &Vec<usize>, i: usize) -> (r: bool)
    ensures
        r == v@.contains(i),
{
    let mut k: usize = 0;
    while k < v.len()
        invariant
            k <= v.len(),
            forall|j: int| 0 <= j < k ==> v@[j] != i,
        decreases v.len() - k,
    {
        if v[k] == i {
            return true;
        }
        k = k + 1;
    }
    false
}

/// The rows of a list of choices: the `i`-th label, ticked when
/// `ticked[i]` is (a missing flag counts as unticked), suggested when `i`
/// is among `suggested`.
pub fn choice_rows(labels: &Vec<String>, ticked: &Vec<bool>, suggested: &Vec<usize>) -> (r: Vec<Piece>)
    ensures
        r@.len() == labels@.len(),
        forall|i: int|
            0 <= i < labels@.len() ==> piece_view(#[trigger] r@[i]) == choice_row(
                labels@[i]@,
                i < ticked@.len() && ticked@[i],
                suggested@.contains(i as usize),
            ),
{
    let mut out: Vec<Piece> = Vec::new();
    let mut i: usize = 0;
    while i < labels.len()
        invariant
            i <= labels.len(),
            out@.len() == i,
            forall|k: int|
                0 <= k < i ==> piece_view(#[trigger] out@[k]) == choice_row(
                    labels@[k]@,
                    k < ticked@.len() && ticked@[k],
                    suggested@.contains(k as usize),
                ),
        decreases labels.len() - i,
    {
        let on = i < ticked.len() && ticked[i];
        let hinted = holds_index(suggested, i);
        let text = concat3(if on { "☑" } else { "☐" }, " ", labels[i].as_str());
        let tone = if on {
            Tone::Good
        } else if hinted {
            Tone::DimItalic
        } else {
            Tone::Plain
        };
        out.push(Piece { text, tone });
        i = i + 1;
    }
    out
}

/// The label of a task offered as a dependency: its id, two spaces, its
/// description.
pub fn dep_labels(deps: &Vec<(String, String)>) -> (r: Vec<String>)
    ensures
        r@.len() == deps@.len(),
        forall|i: int|
            0 <= i < deps@.len() ==> (#[trigger] r@[i])@ == deps@[i].0@ + "  "@ + deps@[i].1@,
{
    let mut out: Vec<String> = Vec::new();
    let mut i: usize = 0;
    while i < deps.len()
        invariant
            i <= deps.len(),
            out@.len() == i,
            forall|k: int|
                0 <= k < i ==> (#[trigger] out@[k])@ == deps@[k].0@ + "  "@ + deps@[k].1@,
        decreases deps.len() - i,
    {
        out.push(concat3(deps[i].0.as_str(), "  ", deps[i].1.as_str()));
        i = i + 1;
    }
    out
}

/// The save button: filled green under the cursor, else green when the
/// form can be saved, else grey.
pub open spec fn submit_tone_of(f: Focus, can_save: bool) -> Tone {
    if f == Focus::Submit {
        Tone::GoodButton
    } else if can_save {
        Tone::Good
    } else {
        Tone::Dim
    }
}

pub fn submit_tone(f: Focus, can_save: bool) -> (r: Tone)
    ensures
        r == submit_tone_of(f, can_save),
{
    match f {
        Focus::Submit => Tone::GoodButton,
        _ => if can_save {
            Tone::Good
        } else {
            Tone::Dim
        },
    }
}

/// The cancel button: filled red under the cursor, else red.
pub fn cancel_tone(f: Focus) -> (r: Tone)
    ensures
        r == (if f == Focus::Cancel {
            Tone::BadButton
        } else {
            Tone::Bad
        }),
{
    match f {
        Focus::Cancel => Tone::BadButton,
        _ => Tone::Bad,
    }
}

} // verus!
