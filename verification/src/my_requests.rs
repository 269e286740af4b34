//! A request to send with curl: the server to call, its headers and its body.
use vstd::prelude::*;
use crate::text::strings_view;

verus! {

/// A request: the server it goes to, its header lines and its body.
pub struct MyRequests {
    server: String,
    headers: Vec<String>,
    body: String,
}

/// What a [`MyRequests`] holds.
pub struct RequestModel {
    pub server: Seq<char>,
    pub headers: Seq<Seq<char>>,
    pub body: Seq<char>,
}

impl View for MyRequests {
    type V = RequestModel;

    closed spec fn view(&self) -> RequestModel {
        RequestModel {
            server: self.server@,
            headers: strings_view(self.headers@),
            body: self.body@,
        }
    }
}

} // verus!
