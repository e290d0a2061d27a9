//! What the two HTTP endpoints answer: the scrape that refreshes and encodes
//! the registry, and the unconditional health probe. The listener itself
//! lives outside the library and only carries these replies.

use vstd::prelude::*;
use vstd::string::StringExecFns;

use crate::encoding::spec_encode;
use crate::metrics::{apply_sweep, state_wf, sweep_error, AppState, DeviceReport};

verus! {

/// One HTTP reply as the endpoints decide it: status code, content type if
/// any, body.
pub struct Reply {
    pub status: u16,
    pub content_type: Option<String>,
    pub body: String,
}

/// The content type of a successful metrics exposition.
pub fn openmetrics_content_type() -> (r: String)
    ensures
        r@ == "application/openmetrics-text; version=1.0.0; charset=utf-8"@,
{
    String::from_str("application/openmetrics-text; version=1.0.0; charset=utf-8")
}

/// One `/metrics` scrape, given what the sweep's device queries produced:
/// the registry is refreshed first; a clean sweep answers 200 with the full
/// exposition, a failed one answers 500 with the error text and no content
/// type, and the registry stays as the partial sweep left it.
pub fn metrics_response(state: &mut AppState, reports: &Vec<DeviceReport>) -> (r: Reply)
    requires
        state_wf(old(state)@),
    ensures
        final(state)@ == apply_sweep(old(state)@, reports.deep_view()),
        state_wf(final(state)@),
        sweep_error(reports.deep_view()) is None ==> r.status == 200 && r.body@ == spec_encode(
            final(state)@,
        ) && (r.content_type matches Some(ct) && ct@
            == "application/openmetrics-text; version=1.0.0; charset=utf-8"@),
        sweep_error(reports.deep_view()) matches Some(e) ==> r.status == 500 && r.body@ == e
            && r.content_type is None,
{
    let res = state.update_metrics(reports);
    match res {
        Ok(()) => Reply {
            status: 200,
            content_type: Some(openmetrics_content_type()),
            body: state.encode(),
        },
        Err(e) => Reply { status: 500, content_type: None, body: e },
    }
}

/// The `/health` reply: 200 with an empty body, unconditionally, whatever
/// state any device is in.
pub fn health_response() -> (r: Reply)
    ensures
        r.status == 200,
        r.body@ == Seq::<char>::empty(),
        r.content_type is None,
{
    Reply { status: 200, content_type: None, body: String::new() }
}

/// Whether a probe of the running server's `/health` endpoint counts as
/// success: a client- or server-error status (400 through 599) fails the
/// probe, anything else passes it.
pub fn health_probe_ok(status: u16) -> (r: bool)
    ensures
        r == !(400 <= status < 600),
{
    !(400 <= status && status < 600)
}

} // verus!
