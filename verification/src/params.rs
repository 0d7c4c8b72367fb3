//! Defaults of the tool parameters, and the parameters of the `back` and
//! `refresh` navigation tools.
use vstd::prelude::*;

use crate::text::copy_str;

verus! {

/// Default step limit for browsing goals.
pub fn default_max_steps() -> (r: u32)
    ensures
        r == 10,
{
    10
}

/// Default page size for extract / snapshot pagination.
pub fn default_page_size() -> (r: u32)
    ensures
        r == 50,
{
    50
}

/// Default snapshot hard timeout: 20 seconds.
pub fn default_snapshot_timeout_ms() -> (r: u64)
    ensures
        r == 20_000,
{
    20_000
}

/// Default wait timeout: 10 seconds.
pub fn default_wait_timeout() -> (r: u64)
    ensures
        r == 10_000,
{
    10_000
}

/// Default wait polling interval: half a second.
pub fn default_wait_poll() -> (r: u64)
    ensures
        r == 500,
{
    500
}

/// Default network filter: every request kind.
pub fn default_network_filter() -> (r: String)
    ensures
        r@ == "all"@,
{
    copy_str("all")
}

/// Default timeout of the `back` and `refresh` tools: 10 seconds.
pub fn default_nav_timeout_ms() -> (r: u64)
    ensures
        r == 10_000,
{
    10_000
}

/// Default scroll direction.
pub fn default_scroll_direction() -> (r: String)
    ensures
        r@ == "down"@,
{
    copy_str("down")
}

/// Default scroll distance in pixels.
pub fn default_scroll_pixels() -> (r: u32)
    ensures
        r == 600,
{
    600
}

/// Parameters of the `back` tool: a hard timeout for the whole
/// back-navigate cycle, and the tab (the active one when omitted).
#[derive(Debug, Clone)]
pub struct BackParams {
    pub timeout_ms: u64,
    pub tab_id: Option<u32>,
}

impl Default for BackParams {
    fn default() -> (p: Self)
        ensures
            p.timeout_ms == 10_000,
            p.tab_id is None,
    {
        BackParams { timeout_ms: default_nav_timeout_ms(), tab_id: None }
    }
}

/// Parameters of the `refresh` tool: a hard timeout for the whole refresh
/// cycle, and the tab (the active one when omitted).
#[derive(Debug, Clone)]
pub struct RefreshParams {
    pub timeout_ms: u64,
    pub tab_id: Option<u32>,
}

impl Default for RefreshParams {
    fn default() -> (p: Self)
        ensures
            p.timeout_ms == 10_000,
            p.tab_id is None,
    {
        RefreshParams { timeout_ms: default_nav_timeout_ms(), tab_id: None }
    }
}

} // verus!
