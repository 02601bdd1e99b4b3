//! The error-report page: rendered when no review requests could be
//! retrieved at all, in place of a normal report.

use vstd::prelude::*;
use vstd::string::StringExecFns;
use crate::classify::Mode;

verus! {

/// The branding word of the active mode.
pub open spec fn site_word(mode: Mode) -> Seq<char> {
    match mode {
        Mode::Ack => "ACK"@,
        Mode::Nack => "NACK"@,
    }
}

/// Opening of the error page, up to the first branding word.
pub open spec fn err_head() -> Seq<char> {
    "<!DOCTYPE html>\n<html lang=\"en\">\n<head>\n<meta charset=\"UTF-8\">\n<title>Bitcoin Core "@
}

/// Between the title branding word and the heading branding word.
pub open spec fn err_mid() -> Seq<char> {
    "s</title>\n</head>\n<body>\n<h1>Bitcoin Core "@
}

/// Between the heading branding word and the caller's message.
pub open spec fn err_pre_msg() -> Seq<char> {
    "s</h1>\n<div class=\"error-message\">\n"@
}

/// Closing of the error page, after the caller's message.
pub open spec fn err_tail() -> Seq<char> {
    "\n<br><br>\nThe report will be regenerated on the next scheduled run.\n</div>\n</body>\n</html>\n"@
}

/// The whole error page for a mode and message.
pub open spec fn error_page_spec(mode: Mode, msg: Seq<char>) -> Seq<char> {
    err_head() + site_word(mode) + err_mid() + site_word(mode) + err_pre_msg() + msg + err_tail()
}

/// Renders the error-report page: it carries the caller's message, which
/// states that data could not be retrieved, and says that the report will
/// be regenerated on the next scheduled run.
pub fn generate_error_html(error_message: &str, mode: Mode) -> (r: String)
    ensures
        r@ == error_page_spec(mode, error_message@),
{
    let site = match mode {
        Mode::Ack => "ACK",
        Mode::Nack => "NACK",
    };
    assert(site@ == site_word(mode));
    let mut r = String::from_str(
        "<!DOCTYPE html>\n<html lang=\"en\">\n<head>\n<meta charset=\"UTF-8\">\n<title>Bitcoin Core ",
    );
    r.append(site);
    r.append("s</title>\n</head>\n<body>\n<h1>Bitcoin Core ");
    r.append(site);
    r.append("s</h1>\n<div class=\"error-message\">\n");
    r.append(error_message);
    r.append(
        "\n<br><br>\nThe report will be regenerated on the next scheduled run.\n</div>\n</body>\n</html>\n",
    );
    assert(r@ =~= error_page_spec(mode, error_message@));
    r
}

} // verus!
