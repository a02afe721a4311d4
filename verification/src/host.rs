//! Host modes and the desktop shell services a host offers.

use vstd::prelude::*;

verus! {

#[derive(Clone, Copy, Debug, PartialEq, Eq, Structural)]
pub enum HostMode {
    Headless,
    Desktop,
}

/// File dialogs of a desktop host, implemented by the host.
pub trait DesktopShell {
    type Error;

    /// Asks the user for a project to open; `None` when cancelled.
    fn open_project_dialog(&self) -> Result<Option<String>, Self::Error>;

    /// Asks the user where to save a project; `None` when cancelled.
    fn save_project_dialog(&self, suggested_name: &str) -> Result<Option<String>, Self::Error>;
}

/// Why the UI read model was rebuilt.
#[derive(Clone, Copy, Debug, PartialEq, Eq, Structural)]
pub enum UiReadModelReplaceReason {
    /// Initial projection built before the UI host starts accepting requests.
    Initial,
    /// Incremental engine events were published and the snapshot refreshed.
    EngineEvents,
    /// The live project was replaced by load or new.
    ProjectReplaced,
}

} // verus!
