//! Requests to the controller of a running core.

use crate::config::AppConfig;
use crate::encoding::{self, url_encode};
use crate::number::{self, decimal_text};
use crate::runtime::{self, controller_addr};
use vstd::prelude::*;

verus! {

/// Something that is asked of the controller.
#[derive(Debug, PartialEq, Eq)]
pub enum ApiCall {
    /// Which proxies and groups there are.
    Proxies,
    /// How long a proxy takes to fetch a page.
    Delay { name: String, test_url: String, timeout_ms: u64 },
    /// To select a proxy in a group.
    Select { selector: String, name: String },
    /// To load the configuration from a file.
    Reload { path: String },
}

/// A request: `PUT` where there is a content to put and else `GET`, with a bearer token
/// where there is a secret. The content is an object with one field.
#[derive(Debug, PartialEq, Eq)]
pub struct ApiRequest {
    pub url: String,
    pub token: Option<String>,
    pub content: Option<(String, String)>,
}

/// The address and the secret of the controller.
#[derive(Debug, PartialEq, Eq)]
pub struct ApiClient {
    base: String,
    secret: String,
}

impl ApiCall {
    /// The path and query of the call.
    pub open spec fn target(self) -> Seq<char> {
        match self {
            ApiCall::Proxies => "/proxies"@,
            ApiCall::Delay { name, test_url, timeout_ms } => "/proxies/"@ + encoding::url_encoded(
                name@,
            ) + "/delay?timeout="@ + number::decimal(timeout_ms as nat) + "&url="@
                + encoding::url_encoded(test_url@),
            ApiCall::Select { selector, name: _ } => "/proxies/"@ + encoding::url_encoded(
                selector@,
            ),
            ApiCall::Reload { path: _ } => "/configs?force=true"@,
        }
    }

    /// The field that the call puts.
    pub open spec fn put(self) -> Option<(Seq<char>, Seq<char>)> {
        match self {
            ApiCall::Select { selector: _, name } => Some(("name"@, name@)),
            ApiCall::Reload { path } => Some(("path"@, path@)),
            _ => None,
        }
    }

    /// The complaint about an answer with the given status.
    pub open spec fn complaint(self, status: Seq<char>) -> Seq<char> {
        match self {
            ApiCall::Proxies => "GET /proxies failed: HTTP "@ + status,
            ApiCall::Delay { name, test_url: _, timeout_ms: _ } => "delay API failed for "@ + name@
                + ": HTTP "@ + status,
            ApiCall::Select { selector: _, name: _ } => "select API failed: HTTP "@ + status,
            ApiCall::Reload { path: _ } => "reload config failed: HTTP "@ + status,
        }
    }

    /// Accepts an answer by the code of its status, or says what the controller answered.
    pub fn check_status(&self, code: u16, status: &str) -> (accepted: Result<(), String>)
        ensures
            match accepted {
                Ok(_) => 200 <= code < 300,
                Err(complaint) => !(200 <= code < 300) && complaint@ == self.complaint(status@),
            },
    {
        if 200 <= code && code < 300 {
            return Ok(());
        }
        let mut complaint: String = match self {
            ApiCall::Proxies => "GET /proxies failed: HTTP ".to_string(),
            ApiCall::Delay { name, test_url: _, timeout_ms: _ } => {
                let mut start: String = "delay API failed for ".to_string();
                start.append(name.as_str());
                start.append(": HTTP ");
                start
            },
            ApiCall::Select { selector: _, name: _ } => "select API failed: HTTP ".to_string(),
            ApiCall::Reload { path: _ } => "reload config failed: HTTP ".to_string(),
        };
        complaint.append(status);
        Err(complaint)
    }
}

/// The two texts of an optional pair.
pub open spec fn optional_pair(pair: Option<(String, String)>) -> Option<(Seq<char>, Seq<char>)> {
    match pair {
        Some((field, content)) => Some((field@, content@)),
        None => None,
    }
}

/// The token that goes with a secret: none with an empty one.
pub open spec fn token_of(secret: Seq<char>) -> Option<Seq<char>> {
    if secret.len() == 0 {
        None
    } else {
        Some(secret)
    }
}

impl ApiClient {
    /// Where the controller is.
    pub closed spec fn base(self) -> Seq<char> {
        self.base@
    }

    /// The secret that the controller asks for.
    pub closed spec fn secret(self) -> Seq<char> {
        self.secret@
    }

    /// The controller of a configuration.
    pub fn new(cfg: &AppConfig) -> (client: Self)
        ensures
            client.base() == "http://"@ + runtime::controller_address(*cfg),
            client.secret() == cfg.controller.secret@,
    {
        let mut base: String = "http://".to_string();
        let address: String = controller_addr(cfg);
        base.append(address.as_str());
        ApiClient { base, secret: cfg.controller.secret.clone() }
    }

    /// The token for requests.
    pub fn auth(&self) -> (token: Option<String>)
        ensures
            match token {
                Some(token) => token_of(self.secret()) == Some(token@),
                None => token_of(self.secret()) is None,
            },
    {
        if self.secret.as_str().is_empty() {
            None
        } else {
            Some(self.secret.clone())
        }
    }

    /// The request for a call.
    pub fn request(&self, call: &ApiCall) -> (request: ApiRequest)
        ensures
            request.url@ == self.base() + call.target(),
            match request.token {
                Some(token) => token_of(self.secret()) == Some(token@),
                None => token_of(self.secret()) is None,
            },
            optional_pair(request.content) == call.put(),
    {
        let mut url: String = self.base.clone();
        let content: Option<(String, String)> = match call {
            ApiCall::Proxies => {
                url.append("/proxies");
                None
            },
            ApiCall::Delay { name, test_url, timeout_ms } => {
                let name: String = url_encode(name.as_str());
                let timeout: String = decimal_text(*timeout_ms);
                let page: String = url_encode(test_url.as_str());
                url.append("/proxies/");
                url.append(name.as_str());
                url.append("/delay?timeout=");
                url.append(timeout.as_str());
                url.append("&url=");
                url.append(page.as_str());
                assert(url@ =~= self.base() + call.target());
                None
            },
            ApiCall::Select { selector, name } => {
                let group: String = url_encode(selector.as_str());
                url.append("/proxies/");
                url.append(group.as_str());
                assert(url@ =~= self.base() + call.target());
                Some(("name".to_string(), name.clone()))
            },
            ApiCall::Reload { path } => {
                url.append("/configs?force=true");
                Some(("path".to_string(), path.clone()))
            },
        };
        ApiRequest { url, token: self.auth(), content }
    }
}

/// Each call goes to its own path. The names and the page that it speaks of stand there
/// percent-encoded, and the time limit in decimal notation.
pub proof fn calls_have_their_paths(
    name: String,
    test_url: String,
    timeout_ms: u64,
    selector: String,
    path: String,
)
    ensures
        (ApiCall::Proxies).target() == "/proxies"@,
        (ApiCall::Delay { name, test_url, timeout_ms }).target() == "/proxies/"@
            + encoding::url_encoded(name@) + "/delay?timeout="@ + number::decimal(timeout_ms as nat)
            + "&url="@ + encoding::url_encoded(test_url@),
        (ApiCall::Select { selector, name }).target() == "/proxies/"@ + encoding::url_encoded(
            selector@,
        ),
        (ApiCall::Reload { path }).target() == "/configs?force=true"@,
{
}

/// To select a proxy its name is put, and to load a configuration its path; nothing is put
/// to ask for something.
pub proof fn calls_put_their_content(
    name: String,
    test_url: String,
    timeout_ms: u64,
    selector: String,
    path: String,
)
    ensures
        (ApiCall::Proxies).put() is None,
        (ApiCall::Delay { name, test_url, timeout_ms }).put() is None,
        (ApiCall::Select { selector, name }).put() == Some(("name"@, name@)),
        (ApiCall::Reload { path }).put() == Some(("path"@, path@)),
{
}

/// Each complaint about an answer ends in the status, and that about a delay names the proxy.
pub proof fn complaints_name_the_status(
    name: String,
    test_url: String,
    timeout_ms: u64,
    selector: String,
    path: String,
    status: Seq<char>,
)
    ensures
        (ApiCall::Proxies).complaint(status) == "GET /proxies failed: HTTP "@ + status,
        (ApiCall::Delay { name, test_url, timeout_ms }).complaint(status)
            == "delay API failed for "@ + name@ + ": HTTP "@ + status,
        (ApiCall::Select { selector, name }).complaint(status) == "select API failed: HTTP "@
            + status,
        (ApiCall::Reload { path }).complaint(status) == "reload config failed: HTTP "@ + status,
{
}

/// A secret goes with every request as it is, unless it is empty.
pub proof fn secret_is_the_token(secret: Seq<char>)
    ensures
        token_of(secret) is None <==> secret.len() == 0,
        token_of(secret) is Some ==> token_of(secret) == Some(secret),
{
}

/// A request goes to the controller of the configuration by HTTP, to the path of the call, and
/// carries the secret of the configuration where there is one, and what the call puts.
pub proof fn requests_go_to_the_controller(
    cfg: &AppConfig,
    client: &ApiClient,
    call: &ApiCall,
    request: ApiRequest,
)
    requires
        call_ensures(ApiClient::new, (cfg,), *client),
        call_ensures(ApiClient::request, (client, call), request),
    ensures
        request.url@ == "http://"@ + (cfg.controller.host@ + ":"@ + number::decimal(
            cfg.controller.port as nat,
        )) + call.target(),
        request.token is Some <==> cfg.controller.secret@.len() > 0,
        request.token is Some ==> request.token->0@ == cfg.controller.secret@,
        request.content is Some <==> call is Select || call is Reload,
        call matches ApiCall::Select { selector: _, name } ==> (request.content->0).0@ == "name"@
            && (request.content->0).1@ == name@,
        call matches ApiCall::Reload { path } ==> (request.content->0).0@ == "path"@
            && (request.content->0).1@ == path@,
{
}

/// An answer is accepted exactly where its code is one of success, and else complained of.
pub proof fn success_is_accepted(
    call: &ApiCall,
    code: u16,
    status: &str,
    accepted: Result<(), String>,
)
    requires
        call_ensures(ApiCall::check_status, (call, code, status), accepted),
    ensures
        accepted is Ok <==> code / 100 == 2,
        accepted matches Err(complaint) ==> complaint@ == call.complaint(status@),
{
}

} // verus!
