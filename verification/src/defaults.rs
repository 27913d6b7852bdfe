//! The answer that is given where the application supplies none: a plain
//! text `400 BAD REQUEST` for a request that could not be parsed.

use vstd::prelude::*;
use vstd::string::*;
use crate::app::ErrorView;
use crate::request::{message_of, ParseError, ParseErrorView};
use crate::response::{ContentType, ContentTypeView, Response, ResponseView};

verus! {

/// What std's `Debug` formatting makes of a text: the text in double
/// quotes, with the characters that cannot stand there escaped.
pub uninterp spec fn debug_text(text: Seq<char>) -> Seq<char>;

/// Renders `text` as `{:?}` does. Assumed of std's `Debug` for `str`, not
/// proved: what it gives depends on the text alone. The rendering itself is
/// not stated here; it goes by the name `debug_text`.
#[verifier::external_body]
fn debug_format(text: &str) -> (rendered: String)
    ensures
        rendered@ == debug_text(text@),
{
    format!("{:?}", text)
}

/// The page that reports an error, given the error as it is to be shown:
/// status `400 BAD REQUEST`, plain text, and the body `Error: ` followed by
/// what is shown.
pub open spec fn error_page_of(shown: Seq<char>) -> ResponseView {
    ResponseView {
        status: Some("400 BAD REQUEST"@),
        content: Some("Error: "@ + shown),
        content_type: Some(ContentTypeView::Custom("text/plain"@)),
    }
}

/// The response of the default view to a parse error: the page that shows
/// the error's message as `Debug` formatting renders it.
pub open spec fn bad_request(error: ParseErrorView) -> ResponseView {
    error_page_of(debug_text(message_of(error)))
}

/// Makes the page that reports an error, from the error as it is to be shown.
pub fn error_page(shown: String) -> (r: Response)
    ensures
        r@ == error_page_of(shown@),
{
    let status: String = "400 BAD REQUEST".to_owned();
    let mut content: String = "Error: ".to_owned();
    content.append(shown.as_str());
    Response::new().with_content(content).with_content_type(
        ContentType::Custom("text/plain".to_owned()),
    ).with_status(status)
}

/// The default view for a request that could not be parsed.
pub fn default_view_400(error: ParseError) -> (r: Response)
    ensures
        r@ == bad_request(error@),
{
    let message: String = error.message();
    error_page(debug_format(message.as_str()))
}

/// The default route for requests that could not be parsed: whatever the
/// error, the default view.
pub fn default_route_400(_error: &ParseError) -> (view: ErrorView)
    ensures
        view == ErrorView::BadRequest,
{
    ErrorView::BadRequest
}

} // verus!
