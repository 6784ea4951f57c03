//! Pure view state: the current view mode, the filter bar, and the small
//! state machines behind the modals (create form, exec, rename, copy,
//! processes, logs scrolling). No rendering lives here.

use vstd::prelude::*;
use vstd::string::StringExecFns;
use crate::text::{contains_ci, dec_val, is_digits, pop_char, push_char, split_char, split_seq,
    str_eq, trimmed};

verus! {

/// Current view mode of the dashboard.
#[derive(Debug, Clone, Copy, PartialEq, Eq, Structural)]
pub enum ViewMode {
    List,
    Logs,
    Create,
    Filter,
    Exec,
    Info,
    Rename,
    Processes,
    CopyFiles,
    SessionDashboard,
}

/// Container list view modes (horizontal scroll between stat columns).
#[derive(Debug, Clone, Copy, PartialEq, Eq, Structural)]
pub enum ListViewMode {
    /// Name, type, port, CPU bar, memory bar.
    Stats,
    /// Name, receive/send rates and totals.
    Network,
    /// Name, image, id, uptime.
    Details,
}

impl ListViewMode {
    /// The mode to the right of this one, wrapping around.
    pub fn cycle_right(&self) -> (r: Self)
        ensures
            *self == ListViewMode::Stats ==> r == ListViewMode::Network,
            *self == ListViewMode::Network ==> r == ListViewMode::Details,
            *self == ListViewMode::Details ==> r == ListViewMode::Stats,
    {
        match self {
            ListViewMode::Stats => ListViewMode::Network,
            ListViewMode::Network => ListViewMode::Details,
            ListViewMode::Details => ListViewMode::Stats,
        }
    }

    /// The mode to the left of this one, wrapping around.
    pub fn cycle_left(&self) -> (r: Self)
        ensures
            *self == ListViewMode::Stats ==> r == ListViewMode::Details,
            *self == ListViewMode::Network ==> r == ListViewMode::Stats,
            *self == ListViewMode::Details ==> r == ListViewMode::Network,
    {
        match self {
            ListViewMode::Stats => ListViewMode::Details,
            ListViewMode::Network => ListViewMode::Stats,
            ListViewMode::Details => ListViewMode::Network,
        }
    }
}

impl Default for ListViewMode {
    fn default() -> (r: Self)
        ensures
            r == ListViewMode::Stats,
    {
        ListViewMode::Stats
    }
}

/// A pending confirmation.
#[derive(Debug, Clone)]
pub enum ConfirmAction {
    Delete(String),
    Stop(String),
}

/// Active modal state.
#[derive(Debug, Clone)]
pub enum ModalState {
    NoModal,
    Help,
    Confirm(ConfirmAction),
}

/// Free-text filter over container names.
#[derive(Debug, Clone)]
pub struct FilterBar {
    /// The query text.
    pub query: String,
    /// Whether the bar is shown and receiving input.
    pub active: bool,
}

impl FilterBar {
    /// An empty, inactive filter.
    pub fn new() -> (r: Self)
        ensures
            r.query@.len() == 0,
            !r.active,
    {
        FilterBar { query: String::new(), active: false }
    }

    /// Show the bar.
    pub fn activate(&mut self)
        ensures
            final(self).active,
            final(self).query == old(self).query,
    {
        self.active = true;
    }

    /// Hide the bar and clear the query.
    pub fn deactivate(&mut self)
        ensures
            !final(self).active,
            final(self).query@.len() == 0,
    {
        self.active = false;
        self.query = String::new();
    }

    /// Append one character to the query.
    pub fn type_char(&mut self, c: char)
        ensures
            final(self).query@ == old(self).query@.push(c),
            final(self).active == old(self).active,
    {
        push_char(&mut self.query, c);
    }

    /// Remove the last character of the query, if any.
    pub fn backspace(&mut self)
        ensures
            old(self).query@.len() == 0 ==> final(self).query@ == old(self).query@,
            old(self).query@.len() > 0 ==> final(self).query@ == old(self).query@.drop_last(),
            final(self).active == old(self).active,
    {
        let _ = pop_char(&mut self.query);
    }

    /// Clear the query.
    pub fn clear(&mut self)
        ensures
            final(self).query@.len() == 0,
            final(self).active == old(self).active,
    {
        self.query = String::new();
    }

    /// The query is empty.
    pub fn is_empty(&self) -> (r: bool)
        ensures
            r == (self.query@.len() == 0),
    {
        self.query.as_str().is_empty()
    }

    /// A name matches the filter: the empty query matches everything,
    /// otherwise the query must occur in the name ignoring ASCII case.
    pub fn matches(&self, name: &str) -> (r: bool)
        ensures
            r == (self.query@.len() == 0 || contains_ci(name@, self.query@)),
    {
        if self.query.as_str().is_empty() {
            return true;
        }
        crate::text::contains_ignore_ascii_case(name, self.query.as_str())
    }
}

impl Default for FilterBar {
    fn default() -> (r: Self)
        ensures
            r.query@.len() == 0,
            !r.active,
    {
        FilterBar::new()
    }
}

/// A text field after one backspace: its last character removed, or
/// unchanged when already empty.
pub open spec fn dropped(s: Seq<char>) -> Seq<char> {
    if s.len() > 0 {
        s.drop_last()
    } else {
        s
    }
}

/// Sub-mode of the create form.
#[derive(Debug, Clone, Copy, PartialEq, Eq, Structural)]
pub enum CreateMode {
    Form,
    ImageSelect,
}

/// Form state for creating a container.
#[derive(Debug, Clone)]
pub struct CreateContainerForm {
    pub name: String,
    pub image: String,
    pub port_host: String,
    pub port_container: String,
    pub env_vars: String,
    pub volumes: String,
    pub command: String,
    /// Focused field, a value below `field_count()`.
    pub selected_field: usize,
    /// Highlighted image in the selector.
    pub selected_image_idx: usize,
    pub available_images: Vec<String>,
    pub mode: CreateMode,
}

impl CreateContainerForm {
    /// A blank form.
    pub fn new() -> (r: Self)
        ensures
            r.name@.len() == 0,
            r.image@.len() == 0,
            r.selected_field == 0,
            r.selected_image_idx == 0,
            r.available_images@.len() == 0,
            r.mode == CreateMode::Form,
    {
        CreateContainerForm {
            name: String::new(),
            image: String::new(),
            port_host: String::new(),
            port_container: String::new(),
            env_vars: String::new(),
            volumes: String::new(),
            command: String::new(),
            selected_field: 0,
            selected_image_idx: 0,
            available_images: Vec::new(),
            mode: CreateMode::Form,
        }
    }

    /// Number of text fields in the form.
    pub fn field_count() -> (r: usize)
        ensures
            r == 7,
    {
        7
    }

    /// Focus the next field, wrapping around.
    pub fn next_field(&mut self)
        requires
            old(self).selected_field < 7,
        ensures
            final(self).selected_field == (old(self).selected_field + 1) % 7,
    {
        self.selected_field = (self.selected_field + 1) % Self::field_count();
    }

    /// Focus the previous field, wrapping around.
    pub fn prev_field(&mut self)
        requires
            old(self).selected_field < 7,
        ensures
            final(self).selected_field == (if old(self).selected_field == 0 {
                6int
            } else {
                old(self).selected_field - 1
            }),
    {
        if self.selected_field == 0 {
            self.selected_field = Self::field_count() - 1;
        } else {
            self.selected_field = self.selected_field - 1;
        }
    }

    /// Append a character to the focused field.
    pub fn type_char(&mut self, c: char)
        requires
            old(self).selected_field < 7,
        ensures
            final(self).selected_field == old(self).selected_field,
            old(self).selected_field == 0 ==> final(self).name@ == old(self).name@.push(c),
            old(self).selected_field == 1 ==> final(self).image@ == old(self).image@.push(c),
            old(self).selected_field == 2 ==> final(self).port_host@ == old(self).port_host@.push(c),
            old(self).selected_field == 3 ==> final(self).port_container@ == old(self).port_container@.push(c),
            old(self).selected_field == 4 ==> final(self).env_vars@ == old(self).env_vars@.push(c),
            old(self).selected_field == 5 ==> final(self).volumes@ == old(self).volumes@.push(c),
            old(self).selected_field == 6 ==> final(self).command@ == old(self).command@.push(c),
    {
        match self.selected_field {
            0 => push_char(&mut self.name, c),
            1 => push_char(&mut self.image, c),
            2 => push_char(&mut self.port_host, c),
            3 => push_char(&mut self.port_container, c),
            4 => push_char(&mut self.env_vars, c),
            5 => push_char(&mut self.volumes, c),
            _ => push_char(&mut self.command, c),
        }
    }

    /// Remove the last character of the focused field, if any.
    pub fn backspace(&mut self)
        requires
            old(self).selected_field < 7,
        ensures
            final(self).selected_field == old(self).selected_field,
            old(self).selected_field == 0 ==> final(self).name@ == dropped(old(self).name@),
            old(self).selected_field == 1 ==> final(self).image@ == dropped(old(self).image@),
            old(self).selected_field == 2 ==> final(self).port_host@ == dropped(
                old(self).port_host@,
            ),
            old(self).selected_field == 3 ==> final(self).port_container@ == dropped(
                old(self).port_container@,
            ),
            old(self).selected_field == 4 ==> final(self).env_vars@ == dropped(
                old(self).env_vars@,
            ),
            old(self).selected_field == 5 ==> final(self).volumes@ == dropped(
                old(self).volumes@,
            ),
            old(self).selected_field == 6 ==> final(self).command@ == dropped(
                old(self).command@,
            ),
    {
        match self.selected_field {
            0 => {
                let _ = pop_char(&mut self.name);
            },
            1 => {
                let _ = pop_char(&mut self.image);
            },
            2 => {
                let _ = pop_char(&mut self.port_host);
            },
            3 => {
                let _ = pop_char(&mut self.port_container);
            },
            4 => {
                let _ = pop_char(&mut self.env_vars);
            },
            5 => {
                let _ = pop_char(&mut self.volumes);
            },
            _ => {
                let _ = pop_char(&mut self.command);
            },
        }
    }

    /// Take the highlighted image as the image field and return to the form.
    pub fn select_image(&mut self)
        ensures
            old(self).available_images@.len() == 0 ==> *final(self) == *old(self),
            old(self).available_images@.len() > 0 && old(self).selected_image_idx < old(self).available_images@.len() ==> final(self).image == old(self).available_images@[old(self).selected_image_idx as int] && final(self).mode == CreateMode::Form,
    {
        if self.available_images.len() > 0 && self.selected_image_idx
            < self.available_images.len() {
            self.image = self.available_images[self.selected_image_idx].clone();
            self.mode = CreateMode::Form;
        }
    }

    /// Highlight the next image, wrapping around.
    pub fn next_image(&mut self)
        requires
            old(self).selected_image_idx < old(self).available_images@.len() || old(self).available_images@.len() == 0,
        ensures
            old(self).available_images@.len() == 0 ==> *final(self) == *old(self),
            old(self).available_images@.len() > 0 ==> final(self).selected_image_idx as int == (
            old(self).selected_image_idx + 1) % (old(self).available_images@.len() as int),
    {
        if self.available_images.len() > 0 {
            self.selected_image_idx = (self.selected_image_idx + 1) % self.available_images.len();
        }
    }

    /// Highlight the previous image, wrapping around.
    pub fn prev_image(&mut self)
        ensures
            old(self).available_images@.len() == 0 ==> *final(self) == *old(self),
            old(self).available_images@.len() > 0 ==> final(self).selected_image_idx == (if old(self).selected_image_idx == 0 {
                old(self).available_images@.len() - 1
            } else {
                old(self).selected_image_idx as int - 1
            }),
    {
        if self.available_images.len() > 0 {
            if self.selected_image_idx == 0 {
                self.selected_image_idx = self.available_images.len() - 1;
            } else {
                self.selected_image_idx = self.selected_image_idx - 1;
            }
        }
    }

    /// The form can be submitted: name and image are both present.
    pub fn is_valid(&self) -> (r: bool)
        ensures
            r == (self.name@.len() > 0 && self.image@.len() > 0),
    {
        !self.name.as_str().is_empty() && !self.image.as_str().is_empty()
    }
}

impl Default for CreateContainerForm {
    fn default() -> (r: Self)
        ensures
            r.name@.len() == 0,
            r.image@.len() == 0,
            r.mode == CreateMode::Form,
    {
        CreateContainerForm::new()
    }
}

/// Shell-selection modal for entering a container.
#[derive(Debug, Clone)]
pub struct ExecModal {
    pub container_name: String,
    /// Index into the fixed shell list, always below four.
    pub selected: usize,
}

impl ExecModal {
    /// A modal for the named container, with the first shell highlighted.
    pub fn new(container_name: String) -> (r: Self)
        ensures
            r.container_name == container_name,
            r.selected == 0,
    {
        ExecModal { container_name, selected: 0 }
    }

    /// Highlight the next shell, wrapping around.
    pub fn next(&mut self)
        requires
            old(self).selected < 4,
        ensures
            final(self).selected == (old(self).selected + 1) % 4,
            final(self).container_name == old(self).container_name,
    {
        self.selected = (self.selected + 1) % 4;
    }

    /// Highlight the previous shell, wrapping around.
    pub fn previous(&mut self)
        requires
            old(self).selected < 4,
        ensures
            final(self).selected == (if old(self).selected == 0 {
                3int
            } else {
                old(self).selected - 1
            }),
            final(self).container_name == old(self).container_name,
    {
        if self.selected == 0 {
            self.selected = 3;
        } else {
            self.selected = self.selected - 1;
        }
    }

    /// The highlighted shell path.
    pub fn selected_shell(&self) -> (r: &'static str)
        ensures
            self.selected == 0 ==> r@ == "/bin/bash"@,
            self.selected == 1 ==> r@ == "/bin/sh"@,
            self.selected == 2 ==> r@ == "/bin/zsh"@,
            self.selected >= 3 ==> r@ == "/bin/ash"@,
    {
        match self.selected {
            0 => "/bin/bash",
            1 => "/bin/sh",
            2 => "/bin/zsh",
            _ => "/bin/ash",
        }
    }
}

/// A character a container name may contain.
pub open spec fn name_char(c: char) -> bool {
    (48 <= c as u32 && c as u32 <= 57) || (97 <= c as u32 && c as u32 <= 122) || (65 <= c as u32
        && c as u32 <= 90) || c == '_' || c == '-' || c == '.'
}

/// Rename modal: edits a new name for a container.
#[derive(Debug, Clone)]
pub struct RenameModal {
    pub container_name: String,
    pub new_name: String,
}

impl RenameModal {
    /// A modal pre-filled with the current name.
    pub fn new(container_name: String) -> (r: Self)
        ensures
            r.container_name@ == container_name@,
            r.new_name@ == container_name@,
    {
        RenameModal { new_name: container_name.clone(), container_name }
    }

    /// Append a character, accepting only letters, digits, '_', '-' and '.'.
    pub fn handle_char(&mut self, c: char)
        ensures
            final(self).container_name == old(self).container_name,
            name_char(c) ==> final(self).new_name@ == old(self).new_name@.push(c),
            !name_char(c) ==> final(self).new_name@ == old(self).new_name@,
    {
        let u = c as u32;
        if (48 <= u && u <= 57) || (97 <= u && u <= 122) || (65 <= u && u <= 90) || c == '_' || c
            == '-' || c == '.' {
            push_char(&mut self.new_name, c);
        }
    }

    /// Remove the last character of the new name.
    pub fn handle_backspace(&mut self)
        ensures
            final(self).container_name == old(self).container_name,
            old(self).new_name@.len() == 0 ==> final(self).new_name@ == old(self).new_name@,
            old(self).new_name@.len() > 0 ==> final(self).new_name@ == old(self).new_name@.drop_last(),
    {
        let _ = pop_char(&mut self.new_name);
    }

    /// The rename can be submitted: non-empty and actually different.
    pub fn is_valid(&self) -> (r: bool)
        ensures
            r == (self.new_name@.len() > 0 && self.new_name@ != self.container_name@),
    {
        !self.new_name.as_str().is_empty() && !str_eq(
            self.new_name.as_str(),
            self.container_name.as_str(),
        )
    }
}

/// Direction of a file copy.
#[derive(Debug, Clone, Copy, PartialEq, Eq, Structural)]
pub enum CopyDirection {
    /// Host to container.
    ToContainer,
    /// Container to host.
    FromContainer,
}

/// Copy-files modal state.
#[derive(Debug, Clone)]
pub struct CopyFilesModal {
    pub container_name: String,
    pub direction: CopyDirection,
    pub host_path: String,
    pub container_path: String,
    /// 0 = direction, 1 = host path, 2 = container path.
    pub active_field: usize,
}

impl CopyFilesModal {
    /// A modal for the named container, copying out of it by default.
    pub fn new(container_name: String) -> (r: Self)
        ensures
            r.container_name == container_name,
            r.direction == CopyDirection::FromContainer,
            r.host_path@.len() == 0,
            r.container_path@.len() == 0,
            r.active_field == 1,
    {
        CopyFilesModal {
            container_name,
            direction: CopyDirection::FromContainer,
            host_path: String::new(),
            container_path: String::new(),
            active_field: 1,
        }
    }

    /// Flip the copy direction.
    pub fn toggle_direction(&mut self)
        ensures
            final(self).direction == (if old(self).direction == CopyDirection::ToContainer {
                CopyDirection::FromContainer
            } else {
                CopyDirection::ToContainer
            }),
            final(self).host_path == old(self).host_path,
            final(self).container_path == old(self).container_path,
            final(self).active_field == old(self).active_field,
            final(self).container_name == old(self).container_name,
    {
        self.direction = match self.direction {
            CopyDirection::ToContainer => CopyDirection::FromContainer,
            CopyDirection::FromContainer => CopyDirection::ToContainer,
        };
    }

    /// Focus the next field, wrapping around the three fields.
    pub fn next_field(&mut self)
        requires
            old(self).active_field < 3,
        ensures
            final(self).active_field == (old(self).active_field + 1) % 3,
    {
        self.active_field = (self.active_field + 1) % 3;
    }

    /// Focus the previous field, wrapping around.
    pub fn prev_field(&mut self)
        ensures
            final(self).active_field == (if old(self).active_field == 0 {
                2int
            } else {
                old(self).active_field - 1
            }),
    {
        if self.active_field == 0 {
            self.active_field = 2;
        } else {
            self.active_field = self.active_field - 1;
        }
    }

    /// Type into the focused field; on the direction field, any character
    /// flips the direction.
    pub fn handle_char(&mut self, c: char)
        ensures
            final(self).active_field == old(self).active_field,
            final(self).container_name == old(self).container_name,
            old(self).active_field == 0 ==> final(self).direction == (if old(self).direction
                == CopyDirection::ToContainer {
                CopyDirection::FromContainer
            } else {
                CopyDirection::ToContainer
            }) && final(self).host_path == old(self).host_path && final(self).container_path
                == old(self).container_path,
            old(self).active_field == 1 ==> final(self).host_path@ == old(self).host_path@.push(c) && final(self).container_path == old(self).container_path
                && final(self).direction == old(self).direction,
            old(self).active_field == 2 ==> final(self).container_path@ == old(self).container_path@.push(c) && final(self).host_path == old(self).host_path && final(self).direction == old(self).direction,
            old(self).active_field >= 3 ==> *final(self) == *old(self),
    {
        match self.active_field {
            0 => self.toggle_direction(),
            1 => push_char(&mut self.host_path, c),
            2 => push_char(&mut self.container_path, c),
            _ => {},
        }
    }

    /// Remove the last character of the focused path field, if any; the
    /// direction field ignores backspace.
    pub fn handle_backspace(&mut self)
        ensures
            final(self).active_field == old(self).active_field,
            final(self).container_name == old(self).container_name,
            final(self).direction == old(self).direction,
            old(self).active_field == 1 ==> final(self).host_path@ == dropped(
                old(self).host_path@,
            ) && final(self).container_path == old(self).container_path,
            old(self).active_field == 2 ==> final(self).container_path@ == dropped(
                old(self).container_path@,
            ) && final(self).host_path == old(self).host_path,
            !(old(self).active_field == 1 || old(self).active_field == 2) ==> *final(self)
                == *old(self),
    {
        match self.active_field {
            1 => {
                let _ = pop_char(&mut self.host_path);
            },
            2 => {
                let _ = pop_char(&mut self.container_path);
            },
            _ => {},
        }
    }

    /// The copy can be submitted: both paths present.
    pub fn is_valid(&self) -> (r: bool)
        ensures
            r == (self.host_path@.len() > 0 && self.container_path@.len() > 0),
    {
        !self.host_path.as_str().is_empty() && !self.container_path.as_str().is_empty()
    }
}

/// Process table modal ("top" of one container).
#[derive(Debug, Clone)]
pub struct ProcessesModal {
    pub container_name: String,
    /// One row per process.
    pub processes: Vec<Vec<String>>,
    pub scroll: usize,
}

impl ProcessesModal {
    /// A modal over the given process rows.
    pub fn new(container_name: String, processes: Vec<Vec<String>>) -> (r: Self)
        ensures
            r.container_name == container_name,
            r.processes == processes,
            r.scroll == 0,
    {
        ProcessesModal { container_name, processes, scroll: 0 }
    }

    /// Scroll one row up.
    pub fn scroll_up(&mut self)
        ensures
            final(self).scroll == (if old(self).scroll > 0 {
                old(self).scroll - 1
            } else {
                0int
            }),
            final(self).processes == old(self).processes,
    {
        if self.scroll > 0 {
            self.scroll = self.scroll - 1;
        }
    }

    /// Scroll one row down, no further than the last row.
    pub fn scroll_down(&mut self)
        ensures
            final(self).processes == old(self).processes,
            final(self).scroll == (if old(self).scroll + 1 < old(self).processes@.len() {
                old(self).scroll + 1
            } else {
                old(self).scroll as int
            }),
    {
        if self.processes.len() > 0 && self.scroll < self.processes.len() - 1 {
            self.scroll = self.scroll + 1;
        }
    }
}

/// Scroll state of the logs view.
#[derive(Debug, Clone)]
pub struct LogsView {
    pub scroll: usize,
    /// Follow mode: keep the newest lines in view.
    pub follow: bool,
    pub focused: bool,
}

impl LogsView {
    /// A fresh view at the top, following new output.
    pub fn new() -> (r: Self)
        ensures
            r.scroll == 0,
            r.follow,
            !r.focused,
    {
        LogsView { scroll: 0, follow: true, focused: false }
    }

    /// Scroll up and leave follow mode.
    pub fn scroll_up(&mut self, amount: usize)
        ensures
            final(self).scroll == (if old(self).scroll >= amount {
                old(self).scroll - amount
            } else {
                0int
            }),
            !final(self).follow,
    {
        if self.scroll >= amount {
            self.scroll = self.scroll - amount;
        } else {
            self.scroll = 0;
        }
        self.follow = false;
    }

    /// Scroll down, no further than `max`.
    pub fn scroll_down(&mut self, amount: usize, max: usize)
        requires
            old(self).scroll + amount <= usize::MAX,
        ensures
            final(self).scroll == (if old(self).scroll + amount < max {
                old(self).scroll + amount
            } else {
                max as int
            }),
            final(self).follow == old(self).follow,
    {
        let next = self.scroll + amount;
        self.scroll = if next < max {
            next
        } else {
            max
        };
    }

    /// Jump to the top and leave follow mode.
    pub fn top(&mut self)
        ensures
            final(self).scroll == 0,
            !final(self).follow,
    {
        self.scroll = 0;
        self.follow = false;
    }

    /// Jump to the bottom and enable follow mode.
    pub fn bottom(&mut self, max: usize)
        ensures
            final(self).scroll == max,
            final(self).follow,
    {
        self.scroll = max;
        self.follow = true;
    }

    /// Flip follow mode.
    pub fn toggle_follow(&mut self)
        ensures
            final(self).follow == !old(self).follow,
            final(self).scroll == old(self).scroll,
    {
        self.follow = !self.follow;
    }

    /// When following, keep the newest lines in view.
    pub fn update_logs(&mut self, log_count: usize, visible_lines: usize)
        ensures
            old(self).follow && log_count > visible_lines ==> final(self).scroll == log_count
                - visible_lines,
            !(old(self).follow && log_count > visible_lines) ==> final(self).scroll == old(self).scroll,
            final(self).follow == old(self).follow,
    {
        if self.follow && log_count > visible_lines {
            self.scroll = log_count - visible_lines;
        }
    }
}

impl Default for LogsView {
    fn default() -> (r: Self)
        ensures
            r.scroll == 0,
            r.follow,
    {
        LogsView::new()
    }
}

/// What a create form submission asks the runtime for.
pub struct CreateSpec {
    pub name: String,
    pub image: String,
    pub port_host: Option<u16>,
    pub port_container: Option<u16>,
    pub env_vars: Vec<String>,
    pub volumes: Vec<String>,
    pub command: Option<Vec<String>>,
}

/// The port a form field denotes: its decimal value when it is all digits
/// and fits in a `u16`.
pub open spec fn port_of(s: Seq<char>) -> Option<u16> {
    if s.len() > 0 && is_digits(s) && dec_val(s) <= u16::MAX {
        Some(dec_val(s) as u16)
    } else {
        None
    }
}

/// The comma-separated items of a list field, trimmed; an empty field means
/// no items.
pub open spec fn list_items(s: Seq<char>) -> Seq<Seq<char>> {
    if s.len() == 0 {
        Seq::<Seq<char>>::empty()
    } else {
        split_seq(s, ',').map_values(|p: Seq<char>| trimmed(p))
    }
}

fn parse_port(s: &str) -> (r: Option<u16>)
    ensures
        r == port_of(s@),
{
    match crate::text::parse_u64(s) {
        Some(v) => {
            if v <= 65535 {
                Some(v as u16)
            } else {
                None
            }
        },
        None => None,
    }
}

fn split_list(s: &str) -> (r: Vec<String>)
    ensures
        r@.map_values(|p: String| p@) == list_items(s@),
{
    let mut r: Vec<String> = Vec::new();
    if s.is_empty() {
        proof {
            assert(r@.map_values(|p: String| p@) =~= list_items(s@));
        }
        return r;
    }
    let pieces = split_char(s, ',');
    let n = pieces.len();
    let mut i: usize = 0;
    while i < n
        invariant
            n == pieces@.len(),
            0 <= i <= n,
            pieces@.map_values(|p: String| p@) == split_seq(s@, ','),
            r@.len() == i,
            forall|k: int|
                0 <= k < i ==> (#[trigger] r@[k]@) == trimmed(
                    pieces@.map_values(|p: String| p@)[k],
                ),
        decreases n - i,
    {
        proof {
            assert(pieces@.map_values(|p: String| p@)[i as int] == pieces@[i as int]@);
        }
        r.push(String::from_str(crate::text::trim_spaces(pieces[i].as_str())));
        i = i + 1;
    }
    proof {
        assert(r@.map_values(|p: String| p@) =~= list_items(s@));
    }
    r
}

impl CreateContainerForm {
    /// Turn a valid form into the runtime request: ports parsed as decimal
    /// `u16` values, environment and volume lists split at commas and
    /// trimmed, the command split at spaces with empty pieces dropped.
    pub fn build_create_spec(&self) -> (r: CreateSpec)
        ensures
            r.name@ == self.name@,
            r.image@ == self.image@,
            r.port_host == port_of(self.port_host@),
            r.port_container == port_of(self.port_container@),
            r.env_vars@.map_values(|p: String| p@) == list_items(self.env_vars@),
            r.volumes@.map_values(|p: String| p@) == list_items(self.volumes@),
            match r.command {
                Some(ref words) => self.command@.len() > 0 && words@.map_values(|p: String| p@)
                    == split_seq(self.command@, ' ').filter(|w: Seq<char>| w.len() > 0),
                None => self.command@.len() == 0,
            },
    {
        let command: Option<Vec<String>> = if self.command.as_str().is_empty() {
            None
        } else {
            Some(split_words(self.command.as_str()))
        };
        CreateSpec {
            name: self.name.clone(),
            image: self.image.clone(),
            port_host: parse_port(self.port_host.as_str()),
            port_container: parse_port(self.port_container.as_str()),
            env_vars: split_list(self.env_vars.as_str()),
            volumes: split_list(self.volumes.as_str()),
            command,
        }
    }
}

fn split_words(s: &str) -> (r: Vec<String>)
    ensures
        r@.map_values(|p: String| p@) == split_seq(s@, ' ').filter(|w: Seq<char>| w.len() > 0),
{
    let pieces = split_char(s, ' ');
    let ghost pv = pieces@.map_values(|p: String| p@);
    let mut r: Vec<String> = Vec::new();
    let n = pieces.len();
    let mut i: usize = 0;
    while i < n
        invariant
            n == pieces@.len(),
            0 <= i <= n,
            pv == pieces@.map_values(|p: String| p@),
            pv == split_seq(s@, ' '),
            r@.map_values(|p: String| p@) =~= pv.subrange(0, i as int).filter(
                |w: Seq<char>| w.len() > 0,
            ),
        decreases n - i,
    {
        proof {
            reveal(Seq::filter);
            assert(pv.subrange(0, i + 1).drop_last() =~= pv.subrange(0, i as int));
            assert(pv[i as int] == pieces@[i as int]@);
        }
        if !pieces[i].as_str().is_empty() {
            r.push(pieces[i].clone());
        }
        i = i + 1;
    }
    proof {
        assert(pv.subrange(0, n as int) =~= pv);
    }
    r
}

} // verus!
