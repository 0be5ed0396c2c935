//! The settings of sessions.
use crate::text::same_text;
use vstd::prelude::*;

verus! {

/// Lines of history and screen that are saved of a pane, unless set.
pub const DEFAULT_MAX_SCROLLBACK_LINES: usize = 2000;

/// Bytes of replay that a persistent pane keeps, unless set.
pub const DEFAULT_PERSISTENT_RING_BYTES: usize = 1024 * 1024;

/// When a session comes back.
#[derive(Clone, Copy, Debug, PartialEq, Eq, Structural)]
pub enum SessionRestore {
    Never,
    Prompt,
    Always,
}

/// The mode that a name in the settings stands for.
pub open spec fn restore_named(name: Seq<char>) -> Option<SessionRestore> {
    if name == "Never"@ || name == "never"@ || name == "disable"@ || name == "disabled"@ {
        Some(SessionRestore::Never)
    } else if name == "Prompt"@ || name == "prompt"@ {
        Some(SessionRestore::Prompt)
    } else if name == "Always"@ || name == "always"@ || name == "enable"@ || name == "enabled"@ {
        Some(SessionRestore::Always)
    } else {
        None
    }
}

impl SessionRestore {
    /// Whether the session is saved and restored at all.
    pub fn enabled(self) -> (on: bool)
        ensures
            on == (self != SessionRestore::Never),
    {
        match self {
            SessionRestore::Never => false,
            _ => true,
        }
    }

    /// The mode that a name in the settings stands for, old names among them.
    pub fn named(name: &str) -> (mode: Option<SessionRestore>)
        ensures
            mode == restore_named(name@),
    {
        if same_text(name, "Never") || same_text(name, "never") || same_text(name, "disable")
            || same_text(name, "disabled") {
            Some(SessionRestore::Never)
        } else if same_text(name, "Prompt") || same_text(name, "prompt") {
            Some(SessionRestore::Prompt)
        } else if same_text(name, "Always") || same_text(name, "always") || same_text(
            name,
            "enable",
        ) || same_text(name, "enabled") {
            Some(SessionRestore::Always)
        } else {
            None
        }
    }
}

impl Default for SessionRestore {
    fn default() -> (mode: SessionRestore)
        ensures
            mode == SessionRestore::Never,
    {
        SessionRestore::Never
    }
}

/// The session settings.
#[derive(Clone, Copy, Debug, PartialEq, Eq, Structural)]
pub struct Session {
    /// When a session comes back.
    pub restore: SessionRestore,
    /// Whether shells outlive the terminal behind daemons. Counts only where
    /// sessions are restored.
    pub persistent: bool,
    /// Lines of history and screen that are saved of a pane.
    pub max_scrollback_lines: usize,
    /// Bytes of replay that a persistent pane keeps.
    pub ring_bytes: usize,
}

impl Session {
    /// Whether panes live in daemons.
    pub fn uses_daemons(&self) -> (daemons: bool)
        ensures
            daemons == (self.restore != SessionRestore::Never && self.persistent),
    {
        self.restore.enabled() && self.persistent
    }
}

impl Default for Session {
    fn default() -> (session: Session)
        ensures
            session == (Session {
                restore: SessionRestore::Never,
                persistent: false,
                max_scrollback_lines: DEFAULT_MAX_SCROLLBACK_LINES,
                ring_bytes: DEFAULT_PERSISTENT_RING_BYTES,
            }),
    {
        Session {
            restore: SessionRestore::Never,
            persistent: false,
            max_scrollback_lines: DEFAULT_MAX_SCROLLBACK_LINES,
            ring_bytes: DEFAULT_PERSISTENT_RING_BYTES,
        }
    }
}

} // verus!
