pub mod action;
pub mod controller;
pub mod selection;
pub mod session;
pub mod state;
pub mod store;

pub use action::{AppAction, View};
pub use controller::{AppController, CancellationToken};
pub use selection::{ClickModifiers, SelectionModel};
pub use state::{
    AppState, AuthFailure, AuthState, DevicePrompt, GitHubUser, LogEvent, LogLevel, LogSource,
    OperationState, RefreshStage,
};
pub use store::PackageStore;
