//! The HTML page that carries a rendered chart, or the reason there is none.

use vstd::prelude::*;
use vstd::string::StringExecFns;

verus! {

/// Text before the chart.
pub const PAGE_HEADER: &'static str = "<html><head><meta charset=\"UTF-8\"></head><body>";

/// Text after the chart.
pub const PAGE_FOOTER: &'static str = "</body></html>";

/// Text that stands before the message of a chart that failed to render.
pub const RENDER_ERROR_PREFIX: &'static str = "Error creating svg plot: ";

/// The page for the outcome of rendering: the chart itself, or the
/// rendering error in its place, always framed by header and footer.
pub open spec fn page_text(rendered: Result<Seq<char>, Seq<char>>) -> Seq<char> {
    let middle = match rendered {
        Ok(chart) => chart,
        Err(message) => RENDER_ERROR_PREFIX@ + message,
    };
    PAGE_HEADER@ + middle + PAGE_FOOTER@
}

/// The outcome of rendering, as text.
pub open spec fn outcome_view(rendered: &Result<String, String>) -> Result<Seq<char>, Seq<char>> {
    match rendered {
        Ok(chart) => Ok(chart@),
        Err(message) => Err(message@),
    }
}

/// Builds the response body for the outcome of rendering a chart; a failed
/// render still gives a complete page.
pub fn page_body(rendered: &Result<String, String>) -> (r: String)
    ensures
        r@ == page_text(outcome_view(rendered)),
{
    let mut body = String::from_str(PAGE_HEADER);
    match rendered {
        Ok(chart) => {
            body.append(chart.as_str());
        },
        Err(message) => {
            body.append(RENDER_ERROR_PREFIX);
            body.append(message.as_str());
        },
    }
    body.append(PAGE_FOOTER);
    body
}

} // verus!
