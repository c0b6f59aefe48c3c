//! Authentication gateway library: session, CSRF and rate-limit stores, the
//! login flow, and the reverse proxy's request planning.
pub mod table;
pub mod clock;
pub mod token;
pub mod state;
pub mod text;
pub mod password;
pub mod auth;
pub mod proxy;
pub mod laws;

use vstd::prelude::*;

verus! {

/// What the request handlers share: authentication state and the proxy's
/// routing.
pub struct AppState {
    pub auth: auth::AuthState,
    pub proxy: proxy::ProxyState,
}

} // verus!
