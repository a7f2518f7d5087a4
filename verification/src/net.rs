//! An HTTP status-code table: the textual reason phrase of each
//! standard status code.

use vstd::prelude::*;

verus! {

/// The reason phrase of each standard HTTP status code.
pub open spec fn status_text(code: u16) -> Seq<char> {
    if code == 100 {
        "Continue"@
    } else if code == 101 {
        "Switching Protocols"@
    } else if code == 102 {
        "Processing"@
    } else if code == 103 {
        "Early Hints"@
    } else if code == 200 {
        "OK"@
    } else if code == 201 {
        "Created"@
    } else if code == 202 {
        "Accepted"@
    } else if code == 203 {
        "Non-Authoritative Information"@
    } else if code == 204 {
        "No Content"@
    } else if code == 205 {
        "Reset Content"@
    } else if code == 206 {
        "Partial Content"@
    } else if code == 207 {
        "Multi-Status"@
    } else if code == 208 {
        "Already Reported"@
    } else if code == 226 {
        "IM Used"@
    } else if code == 300 {
        "Multiple Choices"@
    } else if code == 301 {
        "Moved Permanently"@
    } else if code == 302 {
        "Found"@
    } else if code == 303 {
        "See Other"@
    } else if code == 304 {
        "Not Modified"@
    } else if code == 305 {
        "Use Proxy"@
    } else if code == 306 {
        "Switch Proxy"@
    } else if code == 307 {
        "Temporary Redirect"@
    } else if code == 308 {
        "Permanent Redirect"@
    } else if code == 400 {
        "Bad Request"@
    } else if code == 401 {
        "Unauthorized"@
    } else if code == 402 {
        "Payment Required"@
    } else if code == 403 {
        "Forbidden"@
    } else if code == 404 {
        "Not Found"@
    } else if code == 405 {
        "Method Not Allowed"@
    } else if code == 406 {
        "Not Acceptable"@
    } else if code == 407 {
        "Proxy Authentication Required"@
    } else if code == 408 {
        "Request Timeout"@
    } else if code == 409 {
        "Conflict"@
    } else if code == 410 {
        "Gone"@
    } else if code == 411 {
        "Length Required"@
    } else if code == 412 {
        "Precondition Failed"@
    } else if code == 413 {
        "Payload Too Large"@
    } else if code == 414 {
        "URI Too Long"@
    } else if code == 415 {
        "Unsupported Media Type"@
    } else if code == 416 {
        "Range Not Satisfiable"@
    } else if code == 417 {
        "Expectation Failed"@
    } else if code == 418 {
        "I'm a teapot"@
    } else if code == 421 {
        "Misdirected Request"@
    } else if code == 422 {
        "Unprocessable Entity"@
    } else if code == 423 {
        "Locked"@
    } else if code == 424 {
        "Failed Dependency"@
    } else if code == 425 {
        "Too Early"@
    } else if code == 426 {
        "Upgrade Required"@
    } else if code == 428 {
        "Precondition Required"@
    } else if code == 429 {
        "Too Many Requests"@
    } else if code == 431 {
        "Request Header Fields Too Large"@
    } else if code == 451 {
        "Unavailable For Legal Reasons"@
    } else if code == 500 {
        "Internal Server Error"@
    } else if code == 501 {
        "Not Implemented"@
    } else if code == 502 {
        "Bad Gateway"@
    } else if code == 503 {
        "Service Unavailable"@
    } else if code == 504 {
        "Gateway Timeout"@
    } else if code == 505 {
        "HTTP Version Not Supported"@
    } else if code == 506 {
        "Variant Also Negotiates"@
    } else if code == 507 {
        "Insufficient Storage"@
    } else if code == 508 {
        "Loop Detected"@
    } else if code == 510 {
        "Not Extended"@
    } else if code == 511 {
        "Network Authentication Required"@
    } else {
        "Unknown"@
    }
}

/// The standard reason phrase of an HTTP status code; `"Unknown"` for a
/// code outside the table.
pub fn http_code_to_string(code: u16) -> (r: String)
    ensures
        r@ == status_text(code),
{
    match code {
        100u16 => "Continue".to_owned(),
        101u16 => "Switching Protocols".to_owned(),
        102u16 => "Processing".to_owned(),
        103u16 => "Early Hints".to_owned(),
        200u16 => "OK".to_owned(),
        201u16 => "Created".to_owned(),
        202u16 => "Accepted".to_owned(),
        203u16 => "Non-Authoritative Information".to_owned(),
        204u16 => "No Content".to_owned(),
        205u16 => "Reset Content".to_owned(),
        206u16 => "Partial Content".to_owned(),
        207u16 => "Multi-Status".to_owned(),
        208u16 => "Already Reported".to_owned(),
        226u16 => "IM Used".to_owned(),
        300u16 => "Multiple Choices".to_owned(),
        301u16 => "Moved Permanently".to_owned(),
        302u16 => "Found".to_owned(),
        303u16 => "See Other".to_owned(),
        304u16 => "Not Modified".to_owned(),
        305u16 => "Use Proxy".to_owned(),
        306u16 => "Switch Proxy".to_owned(),
        307u16 => "Temporary Redirect".to_owned(),
        308u16 => "Permanent Redirect".to_owned(),
        400u16 => "Bad Request".to_owned(),
        401u16 => "Unauthorized".to_owned(),
        402u16 => "Payment Required".to_owned(),
        403u16 => "Forbidden".to_owned(),
        404u16 => "Not Found".to_owned(),
        405u16 => "Method Not Allowed".to_owned(),
        406u16 => "Not Acceptable".to_owned(),
        407u16 => "Proxy Authentication Required".to_owned(),
        408u16 => "Request Timeout".to_owned(),
        409u16 => "Conflict".to_owned(),
        410u16 => "Gone".to_owned(),
        411u16 => "Length Required".to_owned(),
        412u16 => "Precondition Failed".to_owned(),
        413u16 => "Payload Too Large".to_owned(),
        414u16 => "URI Too Long".to_owned(),
        415u16 => "Unsupported Media Type".to_owned(),
        416u16 => "Range Not Satisfiable".to_owned(),
        417u16 => "Expectation Failed".to_owned(),
        418u16 => "I'm a teapot".to_owned(),
        421u16 => "Misdirected Request".to_owned(),
        422u16 => "Unprocessable Entity".to_owned(),
        423u16 => "Locked".to_owned(),
        424u16 => "Failed Dependency".to_owned(),
        425u16 => "Too Early".to_owned(),
        426u16 => "Upgrade Required".to_owned(),
        428u16 => "Precondition Required".to_owned(),
        429u16 => "Too Many Requests".to_owned(),
        431u16 => "Request Header Fields Too Large".to_owned(),
        451u16 => "Unavailable For Legal Reasons".to_owned(),
        500u16 => "Internal Server Error".to_owned(),
        501u16 => "Not Implemented".to_owned(),
        502u16 => "Bad Gateway".to_owned(),
        503u16 => "Service Unavailable".to_owned(),
        504u16 => "Gateway Timeout".to_owned(),
        505u16 => "HTTP Version Not Supported".to_owned(),
        506u16 => "Variant Also Negotiates".to_owned(),
        507u16 => "Insufficient Storage".to_owned(),
        508u16 => "Loop Detected".to_owned(),
        510u16 => "Not Extended".to_owned(),
        511u16 => "Network Authentication Required".to_owned(),
        _ => "Unknown".to_owned(),
    }
}

} // verus!
