use vstd::prelude::*;

verus! {

/// The query of a download from the local web server.
pub struct RequestArgs {
    pub namespace: String,
    pub resource: String,
    pub filename: String,
}

/// How fetching a file for the web server ended.
pub enum DownloadOutcome {
    /// The file was fetched and checked.
    Delivered,
    /// The peer refused, or the file did not match the resource.
    Refused,
    /// The fetch failed with this message.
    Failed(String),
}

/// The reply the web server gives: an HTTP status and, unless the file is
/// streamed, a message.
pub struct HttpReply {
    pub status: u16,
    pub message: Option<String>,
}

/// The message for a refused download.
pub open spec fn refused_message() -> Seq<char> {
    "Permission error or file hash didn't match resource"@
}

/// The reply for each way a download can end: 200 with the file, 403 when
/// refused, 404 with the failure's message.
pub fn download_reply(outcome: &DownloadOutcome) -> (r: HttpReply)
    ensures
        match outcome {
            DownloadOutcome::Delivered => r.status == 200 && r.message is None,
            DownloadOutcome::Refused => r.status == 403 && (r.message matches Some(m) && m@
                == refused_message()),
            DownloadOutcome::Failed(e) => r.status == 404 && (r.message matches Some(m) && m@
                == "Network error occured, "@ + e@),
        },
{
    match outcome {
        DownloadOutcome::Delivered => HttpReply { status: 200, message: None },
        DownloadOutcome::Refused => HttpReply {
            status: 403,
            message: Some("Permission error or file hash didn't match resource".to_owned()),
        },
        DownloadOutcome::Failed(e) => {
            let mut m = "Network error occured, ".to_owned();
            m.append(e.as_str());
            HttpReply { status: 404, message: Some(m) }
        },
    }
}

} // verus!
