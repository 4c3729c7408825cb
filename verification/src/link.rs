//! Share links: one proxy in one URI, `ss://` or `vmess://`.

use crate::emit;
use crate::encoding::{self, decode_base64_to_string, decode_url_component};
use crate::error::{Fault, Problem, SubscriptionError};
use crate::json::{self, json_string, parse_json, Json, JsonTree};
use crate::number::{self, parse_number, NumberError};
use crate::text::{
    self, find_first, find_last, has_char, part_chars, same_text, strip_prefix, to_chars, to_text,
};
use crate::yaml::{self, insert, mapping, text_value, Yaml, YamlTree};
use vstd::prelude::*;
use vstd::slice::slice_subrange;
use vstd::utf8::*;

verus! {

// ---------------------------------------------------------------------------
// Host and port
// ---------------------------------------------------------------------------

pub open spec fn bracket(c: char) -> bool {
    c == '[' || c == ']'
}

/// A text without the square brackets at its start.
pub open spec fn unbracketed_start(s: Seq<char>) -> Seq<char>
    decreases s.len(),
{
    if s.len() > 0 && bracket(s[0]) {
        unbracketed_start(s.skip(1))
    } else {
        s
    }
}

/// A text without the square brackets at its end.
pub open spec fn unbracketed_end(s: Seq<char>) -> Seq<char>
    decreases s.len(),
{
    if s.len() > 0 && bracket(s.last()) {
        unbracketed_end(s.drop_last())
    } else {
        s
    }
}

/// A host without the square brackets around it, in which an IPv6 address stands.
pub open spec fn unbracketed(s: Seq<char>) -> Seq<char> {
    unbracketed_end(unbracketed_start(s))
}

fn trim_brackets<'a>(chars: &'a [char]) -> (rest: &'a [char])
    ensures
        rest@ == unbracketed(chars@),
{
    let mut start: usize = 0;
    assert(chars@.skip(0) =~= chars@);
    while start < chars.len() && (chars[start] == '[' || chars[start] == ']')
        invariant
            start <= chars@.len(),
            unbracketed_start(chars@) == unbracketed_start(chars@.skip(start as int)),
        decreases chars@.len() - start,
    {
        assert(chars@.skip(start as int).skip(1) =~= chars@.skip(start + 1));
        start = start + 1;
    }
    let ghost bare = chars@.skip(start as int);
    assert(unbracketed_start(chars@) == bare);
    let mut end: usize = chars.len();
    assert(bare.take(end - start) =~= bare);
    while end > start && (chars[end - 1] == '[' || chars[end - 1] == ']')
        invariant
            start <= end <= chars@.len(),
            bare == chars@.skip(start as int),
            unbracketed_end(bare) == unbracketed_end(bare.take(end - start)),
        decreases end,
    {
        proof {
            let tail = bare.take(end - start);
            assert(tail.last() == chars@[end - 1]);
            assert(tail.drop_last() =~= bare.take(end - start - 1));
        }
        end = end - 1;
    }
    proof {
        let tail = bare.take(end - start);
        assert(end > start ==> tail.last() == chars@[end - 1]);
        assert(unbracketed_end(tail) == tail);
        assert(chars@.subrange(start as int, end as int) =~= tail);
    }
    slice_subrange(chars, start, end)
}

/// The host and the port in a text `host:port`, parted at the last colon.
pub open spec fn host_port(value: Seq<char>) -> Result<(Seq<char>, nat), Problem> {
    match text::cut_last(value, ':') {
        Some((host, port)) => match number::parsed_number(port, 65535) {
            Ok(n) => Ok((unbracketed(host), n)),
            Err(error) => Err(Problem::Port(error)),
        },
        None => Err(Problem::MissingHostPort),
    }
}

/// Parts `host:port`; an IPv6 host comes without its square brackets.
pub fn split_host_port(value: &str) -> (parts: Result<(String, u16), Problem>)
    ensures
        match parts {
            Ok((host, port)) => host_port(value@) == Ok::<(Seq<char>, nat), Problem>(
                (host@, port as nat),
            ),
            Err(problem) => host_port(value@) == Err::<(Seq<char>, nat), Problem>(problem),
        },
{
    let chars: Vec<char> = to_chars(value);
    let end: usize = chars.len();
    match find_last(chars.as_slice(), ':') {
        Some(i) => {
            let host: &[char] = slice_subrange(chars.as_slice(), 0, i);
            let port: &[char] = slice_subrange(chars.as_slice(), i + 1, end);
            assert(host@ =~= value@.take(i as int));
            assert(port@ =~= value@.skip(i + 1));
            match parse_number(port, 65535) {
                Ok(n) => {
                    assert(n <= 65535) by {
                        lemma_parsed_bound(port@, 65535);
                    }
                    Ok((to_text(trim_brackets(host)), n as u16))
                },
                Err(error) => Err(Problem::Port(error)),
            }
        },
        None => Err(Problem::MissingHostPort),
    }
}

proof fn lemma_parsed_bound(s: Seq<char>, max: nat)
    ensures
        number::parsed_number(s, max) matches Ok(n) ==> n <= max,
{
    lemma_continued_bound(0, s, max);
    lemma_continued_bound(0, s.skip(1), max);
}

proof fn lemma_continued_bound(value: nat, s: Seq<char>, max: nat)
    requires
        value <= max,
    ensures
        number::continued_number(value, s, max) matches Ok(n) ==> n <= max,
    decreases s.len(),
{
    if s.len() > 0 && number::is_digit(s[0]) {
        let next = value * 10 + number::digit_value(s[0]);
        if next <= max {
            lemma_continued_bound(next, s.skip(1), max);
        }
    }
}

// ---------------------------------------------------------------------------
// Shadowsocks
// ---------------------------------------------------------------------------

/// What a `ss` link says of its proxy, apart from the name.
pub struct SsParts {
    pub cipher: Seq<char>,
    pub password: Seq<char>,
    pub server: Seq<char>,
    pub port: nat,
}

/// The parts of `cipher:password@host:port`: the server behind the last `@`, the cipher
/// before the first colon.
pub open spec fn ss_parts(main: Seq<char>) -> Result<SsParts, Problem> {
    match text::cut_last(main, '@') {
        Some((user, address)) => match text::cut_first(user, ':') {
            Some((cipher, password)) => match host_port(address) {
                Ok((server, port)) => Ok(SsParts { cipher, password, server, port }),
                Err(problem) => Err(problem),
            },
            None => Err(Problem::SsMissingCipher),
        },
        None => Err(Problem::SsMissingServer),
    }
}

/// A text with its percent-encoding undone, or the text itself where that gives no text.
pub open spec fn plain_or_same(s: Seq<char>) -> Seq<char> {
    match encoding::url_decoded(s) {
        Some(plain) => plain,
        None => s,
    }
}

/// The proxy that the parts of a `ss` link describe.
pub open spec fn ss_tree(name: Seq<char>, parts: SsParts) -> YamlTree {
    YamlTree::Mapping(
        seq![
            yaml::field("name"@, YamlTree::Text(name)),
            yaml::field("type"@, YamlTree::Text("ss"@)),
            yaml::field("server"@, YamlTree::Text(parts.server)),
            yaml::field("port"@, YamlTree::Integer(parts.port as int)),
            yaml::field("cipher"@, YamlTree::Text(plain_or_same(parts.cipher))),
            yaml::field("password"@, YamlTree::Text(plain_or_same(parts.password))),
            yaml::field("udp"@, YamlTree::Bool(true)),
        ],
    )
}

/// The proxy of a name and of `cipher:password@host:port`.
pub open spec fn ss_proxy_tree(name: Seq<char>, main: Seq<char>) -> Result<YamlTree, Problem> {
    match ss_parts(main) {
        Ok(parts) => Ok(ss_tree(name, parts)),
        Err(problem) => Err(problem),
    }
}

fn plain_component(component: &str) -> (plain: String)
    ensures
        plain@ == plain_or_same(component@),
{
    match decode_url_component(component) {
        Some(plain) => plain,
        None => component.to_string(),
    }
}

proof fn lemma_ss_keys()
    ensures
        "name"@.len() == 4 && "type"@.len() == 4 && "port"@.len() == 4,
        "name"@ != "type"@ && "name"@ != "port"@ && "type"@ != "port"@,
        "server"@.len() == 6 && "cipher"@.len() == 6 && "server"@ != "cipher"@,
        "password"@.len() == 8 && "udp"@.len() == 3,
{
    reveal_strlit("name");
    reveal_strlit("type");
    reveal_strlit("port");
    reveal_strlit("server");
    reveal_strlit("cipher");
    reveal_strlit("password");
    reveal_strlit("udp");
    assert("name"@[0] == 'n' && "type"@[0] == 't' && "port"@[0] == 'p');
    assert("server"@[0] == 's' && "cipher"@[0] == 'c');
}

/// Makes the proxy of a name and of `cipher:password@host:port`.
pub fn ss_proxy(name: &str, main: &str) -> (proxy: Result<Yaml, Problem>)
    ensures
        match proxy {
            Ok(yaml) => ss_proxy_tree(name@, main@) == Ok::<YamlTree, Problem>(yaml@),
            Err(problem) => ss_proxy_tree(name@, main@) == Err::<YamlTree, Problem>(problem),
        },
{
    let chars: Vec<char> = to_chars(main);
    let end: usize = chars.len();
    let at: usize = match find_last(chars.as_slice(), '@') {
        Some(i) => i,
        None => return Err(Problem::SsMissingServer),
    };
    let user: &[char] = slice_subrange(chars.as_slice(), 0, at);
    let address: &[char] = slice_subrange(chars.as_slice(), at + 1, end);
    assert(user@ =~= main@.take(at as int));
    assert(address@ =~= main@.skip(at + 1));
    let colon: usize = match find_first(user, ':') {
        Some(i) => i,
        None => return Err(Problem::SsMissingCipher),
    };
    let cipher: &[char] = slice_subrange(user, 0, colon);
    let password: &[char] = slice_subrange(user, colon + 1, at);
    assert(cipher@ =~= user@.take(colon as int));
    assert(password@ =~= user@.skip(colon + 1));
    let (server, port) = match split_host_port(to_text(address).as_str()) {
        Ok(parts) => parts,
        Err(problem) => return Err(problem),
    };
    let ghost parts = SsParts {
        cipher: cipher@,
        password: password@,
        server: server@,
        port: port as nat,
    };
    assert(ss_parts(main@) == Ok::<SsParts, Problem>(parts));
    let mut entries: Vec<(Yaml, Yaml)> = Vec::new();
    proof {
        lemma_ss_keys();
    }
    insert(&mut entries, "name", text_value(name));
    insert(&mut entries, "type", text_value("ss"));
    insert(&mut entries, "server", Yaml::Text(server));
    insert(&mut entries, "port", Yaml::Unsigned(port as u64));
    insert(&mut entries, "cipher", Yaml::Text(plain_component(to_text(cipher).as_str())));
    insert(&mut entries, "password", Yaml::Text(plain_component(to_text(password).as_str())));
    insert(&mut entries, "udp", Yaml::Bool(true));
    assert(yaml::entry_trees(entries@) =~= ss_tree(name@, parts)->Mapping_0);
    Ok(mapping(entries))
}

/// The part of a `ss` link that describes the proxy: as it stands where it holds an `@`,
/// else unpacked from Base64.
pub open spec fn ss_main(main: Seq<char>) -> Result<Seq<char>, Fault> {
    if main.contains('@') {
        Ok(main)
    } else {
        encoding::base64_text(main)
    }
}

/// The name in the fragment of a `ss` link.
pub open spec fn ss_name(fragment: Seq<char>) -> Seq<char> {
    match encoding::url_decoded(fragment) {
        Some(name) => name,
        None => "ss"@,
    }
}

/// The proxy of a `ss` link: `ss://`, the description or its Base64, a query that is not
/// used, and the name in the fragment.
pub open spec fn ss_link(uri: Seq<char>) -> Result<YamlTree, Fault> {
    match text::stripped(uri, "ss://"@) {
        Some(raw) => {
            let (body, fragment) = text::parted(raw, '#');
            let (main, query) = text::parted(body, '?');
            match ss_main(main) {
                Ok(plain) => match ss_proxy_tree(ss_name(fragment), plain) {
                    Ok(tree) => Ok(tree),
                    Err(problem) => Err(Fault::Problem(problem)),
                },
                Err(fault) => Err(fault),
            }
        },
        None => Err(Fault::Problem(Problem::InvalidSsUri)),
    }
}

/// Reads a `ss` link.
pub fn parse_ss_uri(uri: &str) -> (proxy: Result<Yaml, SubscriptionError>)
    ensures
        match proxy {
            Ok(yaml) => ss_link(uri@) == Ok::<YamlTree, Fault>(yaml@),
            Err(error) => ss_link(uri@) == Err::<YamlTree, Fault>(error@),
        },
{
    let chars: Vec<char> = to_chars(uri);
    let raw: &[char] = match strip_prefix(chars.as_slice(), "ss://") {
        Some(rest) => rest,
        None => return Err(SubscriptionError::Problem(Problem::InvalidSsUri)),
    };
    let (body, fragment) = part_chars(raw, '#');
    let name: String = match decode_url_component(to_text(fragment).as_str()) {
        Some(name) => name,
        None => "ss".to_string(),
    };
    let (main, _query) = part_chars(body, '?');
    let plain: String = if has_char(main, '@') {
        to_text(main)
    } else {
        match decode_base64_to_string(to_text(main).as_str()) {
            Ok(plain) => plain,
            Err(error) => return Err(error),
        }
    };
    match ss_proxy(name.as_str(), plain.as_str()) {
        Ok(yaml) => Ok(yaml),
        Err(problem) => Err(SubscriptionError::Problem(problem)),
    }
}

// ---------------------------------------------------------------------------
// VMess
// ---------------------------------------------------------------------------

/// The text under a key, or another text where there is none.
pub open spec fn text_or(json: JsonTree, key: Seq<char>, other: Seq<char>) -> Seq<char> {
    match json::json_text(json, key) {
        Some(text) => text,
        None => other,
    }
}

/// The text under a key, where there is one that is not empty.
pub open spec fn filled_text(json: JsonTree, key: Seq<char>) -> Option<Seq<char>> {
    match json::json_text(json, key) {
        Some(text) => if text.len() > 0 {
            Some(text)
        } else {
            None
        },
        None => None,
    }
}

/// An entry under `key`, where there is a text for it.
pub open spec fn optional_field(key: Seq<char>, content: Option<Seq<char>>) -> Seq<
    (YamlTree, YamlTree),
> {
    match content {
        Some(text) => seq![yaml::field(key, YamlTree::Text(text))],
        None => Seq::empty(),
    }
}

/// The alter id: zero where there is none or where it is no number.
pub open spec fn alter_id(json: JsonTree) -> nat {
    match json::json_text(json, "aid"@) {
        Some(text) => match number::parsed_number(text, 65535) {
            Ok(n) => n,
            Err(_) => 0,
        },
        None => 0,
    }
}

/// Whether the link asks for TLS: under `tls` there stands a text other than `none`.
pub open spec fn wants_tls(json: JsonTree) -> bool {
    match filled_text(json, "tls"@) {
        Some(tls) => tls != "none"@,
        None => false,
    }
}

/// The entries about TLS.
pub open spec fn tls_fields(json: JsonTree) -> Seq<(YamlTree, YamlTree)> {
    if wants_tls(json) {
        seq![yaml::field("tls"@, YamlTree::Bool(true))] + optional_field(
            "servername"@,
            filled_text(json, "sni"@),
        )
    } else {
        Seq::empty()
    }
}

/// The entry about the transport, which is left out for TCP.
pub open spec fn network_field(network: Seq<char>) -> Seq<(YamlTree, YamlTree)> {
    if network.len() > 0 && network != "tcp"@ {
        seq![yaml::field("network"@, YamlTree::Text(network))]
    } else {
        Seq::empty()
    }
}

/// The headers of a WebSocket transport.
pub open spec fn header_fields(host: Option<Seq<char>>) -> Seq<(YamlTree, YamlTree)> {
    match host {
        Some(host) => seq![
            yaml::field(
                "headers"@,
                YamlTree::Mapping(seq![yaml::field("Host"@, YamlTree::Text(host))]),
            ),
        ],
        None => Seq::empty(),
    }
}

/// The options of a WebSocket transport.
pub open spec fn ws_options(json: JsonTree) -> Seq<(YamlTree, YamlTree)> {
    optional_field("path"@, filled_text(json, "path"@)) + header_fields(filled_text(json, "host"@))
}

/// The entry about a WebSocket transport, where it is used and has options.
pub open spec fn ws_field(json: JsonTree, network: Seq<char>) -> Seq<(YamlTree, YamlTree)> {
    if network == "ws"@ && ws_options(json).len() > 0 {
        seq![yaml::field("ws-opts"@, YamlTree::Mapping(ws_options(json)))]
    } else {
        Seq::empty()
    }
}

/// What a `vmess` link must say of its proxy.
pub struct VmessParts {
    pub server: Seq<char>,
    pub port: nat,
    pub uuid: Seq<char>,
}

/// The parts that a `vmess` link must have: `add`, `port` and `id`.
pub open spec fn vmess_parts(json: JsonTree) -> Result<VmessParts, Problem> {
    match json::json_text(json, "add"@) {
        None => Err(Problem::VmessMissingAdd),
        Some(server) => match json::json_text(json, "port"@) {
            None => Err(Problem::VmessMissingPort),
            Some(port) => match number::parsed_number(port, 65535) {
                Err(error) => Err(Problem::Port(error)),
                Ok(port) => match json::json_text(json, "id"@) {
                    None => Err(Problem::VmessMissingId),
                    Some(uuid) => Ok(VmessParts { server, port, uuid }),
                },
            },
        },
    }
}

/// The entries of every `vmess` proxy.
pub open spec fn vmess_fields(json: JsonTree, parts: VmessParts) -> Seq<(YamlTree, YamlTree)> {
    seq![
        yaml::field("name"@, YamlTree::Text(text_or(json, "ps"@, "vmess"@))),
        yaml::field("type"@, YamlTree::Text("vmess"@)),
        yaml::field("server"@, YamlTree::Text(parts.server)),
        yaml::field("port"@, YamlTree::Integer(parts.port as int)),
        yaml::field("uuid"@, YamlTree::Text(parts.uuid)),
        yaml::field("alterId"@, YamlTree::Integer(alter_id(json) as int)),
        yaml::field("cipher"@, YamlTree::Text(text_or(json, "scy"@, "auto"@))),
        yaml::field("udp"@, YamlTree::Bool(true)),
    ]
}

/// The proxy that the JSON object in a `vmess` link describes.
pub open spec fn vmess_tree(json: JsonTree) -> Result<YamlTree, Problem> {
    match vmess_parts(json) {
        Ok(parts) => {
            let network = text_or(json, "net"@, Seq::empty());
            Ok(
                YamlTree::Mapping(
                    vmess_fields(json, parts) + tls_fields(json) + network_field(network)
                        + ws_field(json, network),
                ),
            )
        },
        Err(problem) => Err(problem),
    }
}

fn filled_string(json: &Json, key: &str) -> (text: Option<String>)
    ensures
        match text {
            Some(t) => filled_text(json@, key@) == Some(t@),
            None => filled_text(json@, key@) is None,
        },
{
    match json_string(json, key) {
        Some(text) => if text.as_str().is_empty() {
            None
        } else {
            Some(text)
        },
        None => None,
    }
}

fn string_or(json: &Json, key: &str, other: &str) -> (text: String)
    ensures
        text@ == text_or(json@, key@, other@),
{
    match json_string(json, key) {
        Some(text) => text,
        None => other.to_string(),
    }
}

fn parse_port(text: &str) -> (port: Result<u16, NumberError>)
    ensures
        match port {
            Ok(n) => number::parsed_number(text@, 65535) == Ok::<nat, NumberError>(n as nat),
            Err(error) => number::parsed_number(text@, 65535) == Err::<nat, NumberError>(error),
        },
{
    proof {
        lemma_parsed_bound(text@, 65535);
    }
    match parse_number(to_chars(text).as_slice(), 65535) {
        Ok(n) => Ok(n as u16),
        Err(error) => Err(error),
    }
}

proof fn lemma_vmess_keys()
    ensures
        "uuid"@.len() == 4 && "uuid"@ != "name"@ && "uuid"@ != "type"@ && "uuid"@ != "port"@,
        "alterId"@.len() == 7 && "network"@.len() == 7 && "ws-opts"@.len() == 7,
        "alterId"@ != "network"@ && "alterId"@ != "ws-opts"@ && "network"@ != "ws-opts"@,
        "tls"@.len() == 3 && "tls"@ != "udp"@,
        "servername"@.len() == 10,
        "path"@.len() == 4 && "headers"@.len() == 7,
{
    reveal_strlit("uuid");
    reveal_strlit("name");
    reveal_strlit("type");
    reveal_strlit("port");
    reveal_strlit("alterId");
    reveal_strlit("network");
    reveal_strlit("ws-opts");
    reveal_strlit("tls");
    reveal_strlit("udp");
    reveal_strlit("servername");
    reveal_strlit("path");
    reveal_strlit("headers");
    assert("uuid"@[0] == 'u' && "name"@[0] == 'n' && "type"@[0] == 't' && "port"@[0] == 'p');
    assert("alterId"@[0] == 'a' && "network"@[0] == 'n' && "ws-opts"@[0] == 'w');
    assert("tls"@[0] == 't' && "udp"@[0] == 'u');
}

/// The options of a WebSocket transport.
fn build_ws_options(json: &Json) -> (options: Vec<(Yaml, Yaml)>)
    ensures
        yaml::entry_trees(options@) == ws_options(json@),
{
    proof {
        lemma_vmess_keys();
    }
    let mut options: Vec<(Yaml, Yaml)> = Vec::new();
    if let Some(path) = filled_string(json, "path") {
        insert(&mut options, "path", Yaml::Text(path));
    }
    if let Some(host) = filled_string(json, "host") {
        let mut headers: Vec<(Yaml, Yaml)> = Vec::new();
        insert(&mut headers, "Host", Yaml::Text(host));
        assert(yaml::entry_trees(headers@) =~= seq![yaml::field("Host"@, YamlTree::Text(host@))]);
        insert(&mut options, "headers", mapping(headers));
    }
    assert(yaml::entry_trees(options@) =~= ws_options(json@));
    options
}

/// Makes the proxy that the JSON object in a `vmess` link describes.
pub fn vmess_proxy(json: &Json) -> (proxy: Result<Yaml, Problem>)
    ensures
        match proxy {
            Ok(yaml) => vmess_tree(json@) == Ok::<YamlTree, Problem>(yaml@),
            Err(problem) => vmess_tree(json@) == Err::<YamlTree, Problem>(problem),
        },
{
    let name: String = string_or(json, "ps", "vmess");
    let server: String = match json_string(json, "add") {
        Some(server) => server,
        None => return Err(Problem::VmessMissingAdd),
    };
    let port: u16 = match json_string(json, "port") {
        Some(port) => match parse_port(port.as_str()) {
            Ok(n) => n,
            Err(error) => return Err(Problem::Port(error)),
        },
        None => return Err(Problem::VmessMissingPort),
    };
    let uuid: String = match json_string(json, "id") {
        Some(uuid) => uuid,
        None => return Err(Problem::VmessMissingId),
    };
    let alter: u16 = match json_string(json, "aid") {
        Some(aid) => match parse_port(aid.as_str()) {
            Ok(n) => n,
            Err(_) => 0,
        },
        None => 0,
    };
    let cipher: String = string_or(json, "scy", "auto");
    let network: String = match json_string(json, "net") {
        Some(network) => network,
        None => String::new(),
    };
    let tls: bool = match filled_string(json, "tls") {
        Some(tls) => !same_text(tls.as_str(), "none"),
        None => false,
    };
    let ghost parts = VmessParts { server: server@, port: port as nat, uuid: uuid@ };
    assert(vmess_parts(json@) == Ok::<VmessParts, Problem>(parts));
    assert(network@ == text_or(json@, "net"@, Seq::empty()));
    proof {
        lemma_ss_keys();
        lemma_vmess_keys();
    }

    let mut entries: Vec<(Yaml, Yaml)> = Vec::new();
    insert(&mut entries, "name", Yaml::Text(name));
    insert(&mut entries, "type", text_value("vmess"));
    insert(&mut entries, "server", Yaml::Text(server));
    insert(&mut entries, "port", Yaml::Unsigned(port as u64));
    insert(&mut entries, "uuid", Yaml::Text(uuid));
    insert(&mut entries, "alterId", Yaml::Unsigned(alter as u64));
    insert(&mut entries, "cipher", Yaml::Text(cipher));
    insert(&mut entries, "udp", Yaml::Bool(true));
    assert(yaml::entry_trees(entries@) =~= vmess_fields(json@, parts));

    if tls {
        insert(&mut entries, "tls", Yaml::Bool(true));
        if let Some(sni) = filled_string(json, "sni") {
            insert(&mut entries, "servername", Yaml::Text(sni));
        }
    }
    assert(yaml::entry_trees(entries@) =~= vmess_fields(json@, parts) + tls_fields(json@));

    if !network.as_str().is_empty() && !same_text(network.as_str(), "tcp") {
        insert(&mut entries, "network", text_value(network.as_str()));
    }
    assert(yaml::entry_trees(entries@) =~= vmess_fields(json@, parts) + tls_fields(json@)
        + network_field(network@));

    if same_text(network.as_str(), "ws") {
        let options: Vec<(Yaml, Yaml)> = build_ws_options(json);
        if options.len() > 0 {
            insert(&mut entries, "ws-opts", mapping(options));
        }
    }
    assert(yaml::entry_trees(entries@) =~= vmess_fields(json@, parts) + tls_fields(json@)
        + network_field(network@) + ws_field(json@, network@));
    Ok(mapping(entries))
}

/// The JSON object that a `vmess` link packs in Base64.
pub open spec fn vmess_json(uri: Seq<char>) -> Result<JsonTree, Fault> {
    match text::stripped(uri, "vmess://"@) {
        Some(raw) => match encoding::base64_text(raw) {
            Ok(decoded) => match json::json_document(decoded) {
                Some(json) => Ok(json),
                None => Err(Fault::Json),
            },
            Err(fault) => Err(fault),
        },
        None => Err(Fault::Problem(Problem::InvalidVmessUri)),
    }
}

/// The proxy of a `vmess` link.
pub open spec fn vmess_link(uri: Seq<char>) -> Result<YamlTree, Fault> {
    match vmess_json(uri) {
        Ok(json) => match vmess_tree(json) {
            Ok(tree) => Ok(tree),
            Err(problem) => Err(Fault::Problem(problem)),
        },
        Err(fault) => Err(fault),
    }
}

/// Reads a `vmess` link.
pub fn parse_vmess_uri(uri: &str) -> (proxy: Result<Yaml, SubscriptionError>)
    ensures
        match proxy {
            Ok(yaml) => vmess_link(uri@) == Ok::<YamlTree, Fault>(yaml@),
            Err(error) => vmess_link(uri@) == Err::<YamlTree, Fault>(error@),
        },
{
    let chars: Vec<char> = to_chars(uri);
    let raw: &[char] = match strip_prefix(chars.as_slice(), "vmess://") {
        Some(rest) => rest,
        None => return Err(SubscriptionError::Problem(Problem::InvalidVmessUri)),
    };
    let decoded: String = match decode_base64_to_string(to_text(raw).as_str()) {
        Ok(decoded) => decoded,
        Err(error) => return Err(error),
    };
    let json: Json = match parse_json(decoded.as_str()) {
        Ok(json) => json,
        Err(error) => return Err(SubscriptionError::Json(error)),
    };
    match vmess_proxy(&json) {
        Ok(yaml) => Ok(yaml),
        Err(problem) => Err(SubscriptionError::Problem(problem)),
    }
}

// ---------------------------------------------------------------------------
// What holds of every link
// ---------------------------------------------------------------------------

/// The description of a Shadowsocks proxy as it stands in a link.
pub open spec fn ss_description(
    cipher: Seq<char>,
    password: Seq<char>,
    server: Seq<char>,
    port: nat,
) -> Seq<char> {
    (encoding::url_encoded(cipher).push(':') + encoding::url_encoded(password)).push('@') + (
    server.push(':') + number::decimal(port))
}

/// A link of a description, open or packed, and of a name.
pub open spec fn ss_uri(description: Seq<char>, fragment: Seq<char>) -> Seq<char> {
    "ss://"@ + (description.push('#') + fragment)
}

proof fn lemma_encoded_without(s: Seq<char>, c: char)
    requires
        c == '#' || c == '?' || c == '@' || c == ':',
    ensures
        !encoding::url_encoded(s).contains(c),
{
    encoding::url_encoded_plain(s);
    let coded = encoding::url_encoded(s);
    assert forall|i: int| 0 <= i < coded.len() implies coded[i] != c by {
        assert(encoding::unreserved_char(coded[i]) || coded[i] == '%');
    }
}

proof fn lemma_decimal_without(n: nat, c: char)
    requires
        c == '#' || c == '?' || c == '@' || c == ':',
    ensures
        !number::decimal(n).contains(c),
{
    number::lemma_decimal_digits(n);
    let digits = number::decimal(n);
    assert forall|i: int| 0 <= i < digits.len() implies digits[i] != c by {
        assert(number::is_digit(digits[i]));
    }
}

proof fn lemma_description_without(
    cipher: Seq<char>,
    password: Seq<char>,
    server: Seq<char>,
    port: nat,
    c: char,
)
    requires
        c == '#' || c == '?',
        !server.contains(c),
    ensures
        !ss_description(cipher, password, server, port).contains(c),
{
    lemma_encoded_without(cipher, c);
    lemma_encoded_without(password, c);
    lemma_decimal_without(port, c);
    let front = encoding::url_encoded(cipher).push(':');
    let user = front + encoding::url_encoded(password);
    let host = server.push(':');
    let address = host + number::decimal(port);
    let whole = ss_description(cipher, password, server, port);
    assert forall|i: int| 0 <= i < whole.len() implies whole[i] != c by {
        let a = front.len() as int;
        let b = user.len() as int;
        let d = b + 1 + host.len();
        if i < a - 1 {
            assert(whole[i] == encoding::url_encoded(cipher)[i]);
        } else if a <= i < b {
            assert(whole[i] == encoding::url_encoded(password)[i - a]);
        } else if b < i < d - 1 {
            assert(whole[i] == server[i - b - 1]);
        } else if i >= d {
            assert(whole[i] == number::decimal(port)[i - d]);
        }
    }
}

proof fn lemma_ss_uri_parts(description: Seq<char>, fragment: Seq<char>)
    requires
        !description.contains('#'),
        !description.contains('?'),
    ensures
        text::stripped(ss_uri(description, fragment), "ss://"@) == Some(
            description.push('#') + fragment,
        ),
        text::parted(description.push('#') + fragment, '#') == (description, fragment),
        text::parted(description, '?') == (description, Seq::<char>::empty()),
{
    let uri = ss_uri(description, fragment);
    let raw = description.push('#') + fragment;
    assert("ss://"@.is_prefix_of(uri)) by {
        assert("ss://"@ =~= uri.subrange(0, "ss://"@.len() as int));
    }
    assert(uri.skip("ss://"@.len() as int) =~= raw);
    text::lemma_cut_joined(description, '#', fragment);
    description.index_of_first_ensures('?');
}

/// A link made of a cipher, a password, a server, a port and a name reads back as a proxy
/// with these, where the server holds none of the characters that end it.
pub proof fn ss_link_reads_back(
    cipher: Seq<char>,
    password: Seq<char>,
    server: Seq<char>,
    port: nat,
    name: Seq<char>,
)
    requires
        port <= 65535,
        !server.contains('@'),
        !server.contains('#'),
        !server.contains('?'),
    ensures
        ss_link(
            ss_uri(ss_description(cipher, password, server, port), encoding::url_encoded(name)),
        ) == Ok::<YamlTree, Fault>(
            YamlTree::Mapping(
                seq![
                    yaml::field("name"@, YamlTree::Text(name)),
                    yaml::field("type"@, YamlTree::Text("ss"@)),
                    yaml::field("server"@, YamlTree::Text(unbracketed(server))),
                    yaml::field("port"@, YamlTree::Integer(port as int)),
                    yaml::field("cipher"@, YamlTree::Text(cipher)),
                    yaml::field("password"@, YamlTree::Text(password)),
                    yaml::field("udp"@, YamlTree::Bool(true)),
                ],
            ),
        ),
{
    let user = encoding::url_encoded(cipher).push(':') + encoding::url_encoded(password);
    let address = server.push(':') + number::decimal(port);
    let main = ss_description(cipher, password, server, port);
    lemma_description_without(cipher, password, server, port, '#');
    lemma_description_without(cipher, password, server, port, '?');
    lemma_ss_uri_parts(main, encoding::url_encoded(name));
    assert(main[user.len() as int] == '@');
    assert(main.contains('@'));
    lemma_decimal_without(port, '@');
    assert(!address.contains('@')) by {
        let host = server.push(':');
        assert forall|i: int| 0 <= i < address.len() implies address[i] != '@' by {
            if i < server.len() {
                assert(address[i] == server[i]);
            } else if i >= host.len() {
                assert(address[i] == number::decimal(port)[i - host.len()]);
            }
        }
    }
    text::lemma_cut_joined(user, '@', address);
    lemma_encoded_without(cipher, ':');
    text::lemma_cut_joined(encoding::url_encoded(cipher), ':', encoding::url_encoded(password));
    lemma_decimal_without(port, ':');
    text::lemma_cut_joined(server, ':', number::decimal(port));
    number::decimal_read_back(port, 65535);
    encoding::url_reads_back(cipher);
    encoding::url_reads_back(password);
    encoding::url_reads_back(name);
}

/// A link whose description is packed in Base64, in either alphabet and padded or not, gives
/// the same proxy, or the same complaint, as the link with the description as it stands.
pub proof fn packed_ss_link_same(packed: Seq<char>, description: Seq<char>, fragment: Seq<char>)
    requires
        encoding::base64_of(packed, encode_utf8(description)),
        description.contains('@'),
        !description.contains('#'),
        !description.contains('?'),
    ensures
        ss_link(ss_uri(packed, fragment)) == ss_link(ss_uri(description, fragment)),
{
    encoding::base64_form_reads_back(description, packed);
    encoding::base64_form_plain(packed, encode_utf8(description));
    assert forall|i: int| 0 <= i < packed.len() implies packed[i] != '@' && packed[i] != '#'
        && packed[i] != '?' by {
        assert(encoding::base64_letter(packed[i]) || packed[i] == '-' || packed[i] == '_'
            || packed[i] == '=');
    }
    lemma_ss_uri_parts(packed, fragment);
    lemma_ss_uri_parts(description, fragment);
}

/// The proxy of a `vmess` link has what the link says under the keys that mihomo reads. TLS
/// and the transport are spoken of exactly where the link asks for them.
pub proof fn vmess_proxy_reads_back(json: JsonTree)
    requires
        vmess_parts(json) is Ok,
    ensures
        ({
            let parts = vmess_parts(json)->Ok_0;
            let proxy = vmess_tree(json)->Ok_0;
            let network = text_or(json, "net"@, Seq::empty());
            &&& vmess_tree(json) is Ok
            &&& yaml::member(proxy, "name"@) == Some(
                YamlTree::Text(text_or(json, "ps"@, "vmess"@)),
            )
            &&& yaml::member(proxy, "type"@) == Some(YamlTree::Text("vmess"@))
            &&& yaml::member(proxy, "server"@) == Some(YamlTree::Text(parts.server))
            &&& yaml::member(proxy, "port"@) == Some(YamlTree::Integer(parts.port as int))
            &&& yaml::member(proxy, "uuid"@) == Some(YamlTree::Text(parts.uuid))
            &&& yaml::member(proxy, "alterId"@) == Some(YamlTree::Integer(alter_id(json) as int))
            &&& yaml::member(proxy, "cipher"@) == Some(
                YamlTree::Text(text_or(json, "scy"@, "auto"@)),
            )
            &&& yaml::member(proxy, "udp"@) == Some(YamlTree::Bool(true))
            &&& yaml::member(proxy, "tls"@) == if wants_tls(json) {
                Some(YamlTree::Bool(true))
            } else {
                None
            }
            &&& yaml::member(proxy, "servername"@) == match filled_text(json, "sni"@) {
                Some(sni) => if wants_tls(json) {
                    Some(YamlTree::Text(sni))
                } else {
                    None
                },
                None => None,
            }
            &&& yaml::member(proxy, "network"@) == if network.len() > 0 && network != "tcp"@ {
                Some(YamlTree::Text(network))
            } else {
                None
            }
            &&& yaml::member(proxy, "ws-opts"@) == if network == "ws"@ && ws_options(json).len()
                > 0 {
                Some(YamlTree::Mapping(ws_options(json)))
            } else {
                None
            }
        }),
{
    lemma_ss_keys();
    lemma_vmess_keys();
    let entries = vmess_tree(json)->Ok_0->Mapping_0;
    let network = text_or(json, "net"@, Seq::empty());
    let t = tls_fields(json).len() as int;
    let n = network_field(network).len() as int;
    let w = ws_field(json, network).len() as int;
    yaml::first_entry_counts(entries, 0, "name"@);
    yaml::first_entry_counts(entries, 1, "type"@);
    yaml::first_entry_counts(entries, 2, "server"@);
    yaml::first_entry_counts(entries, 3, "port"@);
    yaml::first_entry_counts(entries, 4, "uuid"@);
    yaml::first_entry_counts(entries, 5, "alterId"@);
    yaml::first_entry_counts(entries, 6, "cipher"@);
    yaml::first_entry_counts(entries, 7, "udp"@);
    if t > 0 {
        yaml::first_entry_counts(entries, 8, "tls"@);
    } else {
        yaml::no_entry_without_key(entries, "tls"@);
    }
    if t > 1 {
        yaml::first_entry_counts(entries, 9, "servername"@);
    } else {
        yaml::no_entry_without_key(entries, "servername"@);
    }
    if n > 0 {
        yaml::first_entry_counts(entries, 8 + t, "network"@);
    } else {
        yaml::no_entry_without_key(entries, "network"@);
    }
    if w > 0 {
        yaml::first_entry_counts(entries, 8 + t + n, "ws-opts"@);
    } else {
        yaml::no_entry_without_key(entries, "ws-opts"@);
    }
}

proof fn lemma_ss_well_formed(name: Seq<char>, parts: SsParts)
    ensures
        emit::well_formed(ss_tree(name, parts)),
{
    lemma_ss_keys();
    emit::lemma_well_formed_mapping(ss_tree(name, parts)->Mapping_0);
}

proof fn lemma_ws_options_well_formed(json: JsonTree)
    ensures
        emit::well_formed(YamlTree::Mapping(ws_options(json))),
{
    lemma_vmess_keys();
    if let Some(host) = filled_text(json, "host"@) {
        emit::lemma_well_formed_mapping(seq![yaml::field("Host"@, YamlTree::Text(host))]);
    }
    emit::lemma_well_formed_mapping(ws_options(json));
}

/// Different keys stay different when entries under other keys are put behind them.
proof fn lemma_distinct_joined(front: Seq<(YamlTree, YamlTree)>, back: Seq<(YamlTree, YamlTree)>)
    requires
        yaml::distinct_keys(front),
        yaml::distinct_keys(back),
        forall|i: int, j: int|
            0 <= i < front.len() && 0 <= j < back.len() ==> (#[trigger] front[i]).0 != (
            #[trigger] back[j]).0,
    ensures
        yaml::distinct_keys(front + back),
{
    let all = front + back;
    let n = front.len();
    assert forall|i: int, j: int| 0 <= i < j < all.len() implies (#[trigger] all[i]).0 != (
    #[trigger] all[j]).0 by {
        if j < n {
            assert(all[i] == front[i] && all[j] == front[j]);
        } else if i < n {
            assert(all[i] == front[i] && all[j] == back[j - n]);
        } else {
            assert(all[i] == back[i - n] && all[j] == back[j - n]);
        }
    }
}

proof fn lemma_vmess_well_formed(json: JsonTree, parts: VmessParts)
    ensures
        ({
            let network = text_or(json, "net"@, Seq::empty());
            emit::well_formed(
                YamlTree::Mapping(
                    vmess_fields(json, parts) + tls_fields(json) + network_field(network)
                        + ws_field(json, network),
                ),
            )
        }),
{
    let network = text_or(json, "net"@, Seq::empty());
    let base = vmess_fields(json, parts);
    let secured = base + tls_fields(json);
    let carried = secured + network_field(network);
    let entries = carried + ws_field(json, network);
    lemma_ss_keys();
    lemma_vmess_keys();
    lemma_ws_options_well_formed(json);
    lemma_distinct_joined(base, tls_fields(json));
    lemma_distinct_joined(secured, network_field(network));
    lemma_distinct_joined(carried, ws_field(json, network));
    emit::lemma_well_formed_mapping(entries);
}

/// The proxy of every link is a well-formed document.
pub proof fn linked_proxies_well_formed(uri: Seq<char>)
    ensures
        ss_link(uri) matches Ok(proxy) ==> emit::well_formed(proxy),
        vmess_link(uri) matches Ok(proxy) ==> emit::well_formed(proxy),
{
    if ss_link(uri) is Ok {
        let (body, fragment) = text::parted(text::stripped(uri, "ss://"@)->0, '#');
        let (main, query) = text::parted(body, '?');
        lemma_ss_well_formed(ss_name(fragment), ss_parts(ss_main(main)->Ok_0)->Ok_0);
    }
    if vmess_link(uri) is Ok {
        let json = vmess_json(uri)->Ok_0;
        lemma_vmess_well_formed(json, vmess_parts(json)->Ok_0);
    }
}

/// Whether a text is there that is not empty.
pub open spec fn said(text: Option<Seq<char>>) -> bool {
    text matches Some(t) && t.len() > 0
}

/// A WebSocket link gives its path and its host, each where it names one, whether or not it
/// names the other. There are no options exactly where it names neither, and none for
/// another transport.
pub proof fn websocket_options_as_said(json: JsonTree)
    requires
        vmess_tree(json) is Ok,
    ensures
        ({
            let proxy = vmess_tree(json)->Ok_0;
            let options = yaml::member(proxy, "ws-opts"@);
            let path = json::json_text(json, "path"@);
            let host = json::json_text(json, "host"@);
            if json::json_text(json, "net"@) == Some("ws"@) && (said(path) || said(host)) {
                &&& options is Some
                &&& options->0 is Mapping
                &&& options->0->Mapping_0.len() == (if said(path) { 1int } else { 0 }) + (
                if said(host) { 1int } else { 0 })
                &&& said(path) ==> yaml::member(options->0, "path"@) == Some(
                    YamlTree::Text(path->0),
                )
                &&& !said(path) ==> yaml::member(options->0, "path"@) is None
                &&& said(host) ==> {
                    &&& yaml::member(options->0, "headers"@) is Some
                    &&& yaml::member(options->0, "headers"@)->0 is Mapping
                    &&& yaml::member(options->0, "headers"@)->0->Mapping_0.len() == 1
                    &&& yaml::member(yaml::member(options->0, "headers"@)->0, "Host"@) == Some(
                        YamlTree::Text(host->0),
                    )
                }
                &&& !said(host) ==> yaml::member(options->0, "headers"@) is None
            } else {
                options is None
            }
        }),
{
    vmess_proxy_reads_back(json);
    lemma_vmess_keys();
    reveal_strlit("ws");
    let options = ws_options(json);
    let path = json::json_text(json, "path"@);
    let host = json::json_text(json, "host"@);
    if said(path) {
        yaml::first_entry_counts(options, 0, "path"@);
    } else {
        yaml::no_entry_without_key(options, "path"@);
    }
    if said(host) {
        let at = options.len() - 1;
        yaml::first_entry_counts(options, at, "headers"@);
        yaml::first_entry_counts(seq![yaml::field("Host"@, YamlTree::Text(host->0))], 0, "Host"@);
    } else {
        yaml::no_entry_without_key(options, "headers"@);
    }
}

/// A `vmess` link gives a proxy exactly where it names a server, a port that is one, and an
/// id; else the first of these that is missing is complained of.
pub proof fn vmess_needs(json: JsonTree)
    ensures
        ({
            let port = json::json_text(json, "port"@);
            let number = number::parsed_number(port->0, 65535);
            let made = vmess_tree(json);
            if json::json_text(json, "add"@) is None {
                made == Err::<YamlTree, Problem>(Problem::VmessMissingAdd)
            } else if port is None {
                made == Err::<YamlTree, Problem>(Problem::VmessMissingPort)
            } else if number is Err {
                made == Err::<YamlTree, Problem>(Problem::Port(number->Err_0))
            } else if json::json_text(json, "id"@) is None {
                made == Err::<YamlTree, Problem>(Problem::VmessMissingId)
            } else {
                made is Ok
            }
        }),
{
}

/// The proxy of a `vmess` link has the name, server, port, id, cipher and alter id that the
/// link names, with defaults for the name, the cipher and the alter id.
pub proof fn vmess_proxy_as_said(json: JsonTree)
    requires
        vmess_tree(json) is Ok,
    ensures
        ({
            let proxy = vmess_tree(json)->Ok_0;
            let aid = json::json_text(json, "aid"@);
            &&& yaml::member(proxy, "type"@) == Some(YamlTree::Text("vmess"@))
            &&& yaml::member(proxy, "udp"@) == Some(YamlTree::Bool(true))
            &&& yaml::member(proxy, "name"@) == Some(
                YamlTree::Text(
                    match json::json_text(json, "ps"@) {
                        Some(name) => name,
                        None => "vmess"@,
                    },
                ),
            )
            &&& yaml::member(proxy, "server"@) == Some(
                YamlTree::Text(json::json_text(json, "add"@)->0),
            )
            &&& yaml::member(proxy, "port"@) == Some(
                YamlTree::Integer(
                    number::parsed_number(json::json_text(json, "port"@)->0, 65535)->Ok_0 as int,
                ),
            )
            &&& yaml::member(proxy, "uuid"@) == Some(
                YamlTree::Text(json::json_text(json, "id"@)->0),
            )
            &&& yaml::member(proxy, "cipher"@) == Some(
                YamlTree::Text(
                    match json::json_text(json, "scy"@) {
                        Some(cipher) => cipher,
                        None => "auto"@,
                    },
                ),
            )
            &&& yaml::member(proxy, "alterId"@) == Some(
                YamlTree::Integer(
                    if aid is Some && number::parsed_number(aid->0, 65535) is Ok {
                        number::parsed_number(aid->0, 65535)->Ok_0 as int
                    } else {
                        0
                    },
                ),
            )
        }),
{
    vmess_proxy_reads_back(json);
}

/// The proxy of a `vmess` link uses TLS exactly where the link says something other than
/// `none` of it, and then under the server name that the link names. It has a transport
/// exactly where the link names one other than `tcp`. Besides what these and the options of a
/// WebSocket say it has eight entries.
pub proof fn vmess_transport_as_said(json: JsonTree)
    requires
        vmess_tree(json) is Ok,
    ensures
        ({
            let proxy = vmess_tree(json)->Ok_0;
            let tls = json::json_text(json, "tls"@);
            let sni = json::json_text(json, "sni"@);
            let net = json::json_text(json, "net"@);
            let secured = said(tls) && tls->0 != "none"@;
            let options = net == Some("ws"@) && (said(json::json_text(json, "path"@)) || said(
                json::json_text(json, "host"@),
            ));
            &&& proxy is Mapping
            &&& proxy->Mapping_0.len() == 8 + (if secured { 1int } else { 0 }) + (if secured && said(
                sni,
            ) { 1int } else { 0 }) + (if said(net) && net->0 != "tcp"@ { 1int } else { 0 }) + (
            if options { 1int } else { 0 })
            &&& secured ==> yaml::member(proxy, "tls"@) == Some(YamlTree::Bool(true))
            &&& !secured ==> yaml::member(proxy, "tls"@) is None
            &&& secured && said(sni) ==> yaml::member(proxy, "servername"@) == Some(
                YamlTree::Text(sni->0),
            )
            &&& !(secured && said(sni)) ==> yaml::member(proxy, "servername"@) is None
            &&& said(net) && net->0 != "tcp"@ ==> yaml::member(proxy, "network"@) == Some(
                YamlTree::Text(net->0),
            )
            &&& !(said(net) && net->0 != "tcp"@) ==> yaml::member(proxy, "network"@) is None
        }),
{
    vmess_proxy_reads_back(json);
    reveal_strlit("ws");
    assert(tls_fields(json).len() == if wants_tls(json) {
        1 + optional_field("servername"@, filled_text(json, "sni"@)).len()
    } else {
        0
    });
    assert(ws_options(json).len() == optional_field("path"@, filled_text(json, "path"@)).len()
        + header_fields(filled_text(json, "host"@)).len());
}

/// A `vmess` link is `vmess://` and the Base64, in any form, of a JSON document, and gives
/// the proxy that the document describes.
pub proof fn vmess_link_unpacks(coded: Seq<char>, document: Seq<char>)
    requires
        encoding::base64_of(coded, encode_utf8(document)),
    ensures
        vmess_link("vmess://"@ + coded) == match json::json_document(document) {
            None => Err::<YamlTree, Fault>(Fault::Json),
            Some(json) => match vmess_tree(json) {
                Ok(proxy) => Ok::<YamlTree, Fault>(proxy),
                Err(problem) => Err::<YamlTree, Fault>(Fault::Problem(problem)),
            },
        },
{
    let uri = "vmess://"@ + coded;
    assert("vmess://"@.is_prefix_of(uri)) by {
        assert("vmess://"@ =~= uri.subrange(0, "vmess://"@.len() as int));
    }
    assert(uri.skip("vmess://"@.len() as int) =~= coded);
    encoding::base64_form_reads_back(document, coded);
}

/// A text that does not begin as a link of its kind is refused.
pub proof fn links_begin_with_their_kind(uri: Seq<char>)
    ensures
        !"ss://"@.is_prefix_of(uri) ==> ss_link(uri) == Err::<YamlTree, Fault>(
            Fault::Problem(Problem::InvalidSsUri),
        ),
        !"vmess://"@.is_prefix_of(uri) ==> vmess_link(uri) == Err::<YamlTree, Fault>(
            Fault::Problem(Problem::InvalidVmessUri),
        ),
{
}

/// A host loses the square brackets at its ends and nothing else.
pub proof fn brackets_are_taken_off(host: Seq<char>) -> (parts: (Seq<char>, Seq<char>))
    ensures
        host == parts.0 + unbracketed(host) + parts.1,
        forall|i: int|
            0 <= i < parts.0.len() ==> #[trigger] parts.0[i] == '[' || parts.0[i] == ']',
        forall|i: int|
            0 <= i < parts.1.len() ==> #[trigger] parts.1[i] == '[' || parts.1[i] == ']',
        unbracketed(host).len() > 0 ==> {
            &&& unbracketed(host)[0] != '[' && unbracketed(host)[0] != ']'
            &&& unbracketed(host).last() != '[' && unbracketed(host).last() != ']'
        },
{
    let front = lemma_brackets_start(host);
    let back = lemma_brackets_end(unbracketed_start(host));
    assert(host =~= front + unbracketed(host) + back);
    (front, back)
}

proof fn lemma_brackets_start(s: Seq<char>) -> (front: Seq<char>)
    ensures
        s == front + unbracketed_start(s),
        forall|i: int| 0 <= i < front.len() ==> bracket(#[trigger] front[i]),
        unbracketed_start(s).len() > 0 ==> !bracket(unbracketed_start(s)[0]),
    decreases s.len(),
{
    if s.len() > 0 && bracket(s[0]) {
        let rest = lemma_brackets_start(s.skip(1));
        let front = seq![s[0]] + rest;
        assert(s =~= seq![s[0]] + s.skip(1));
        assert(s =~= front + unbracketed_start(s));
        front
    } else {
        assert(s =~= Seq::<char>::empty() + s);
        Seq::empty()
    }
}

proof fn lemma_brackets_end(s: Seq<char>) -> (back: Seq<char>)
    ensures
        s == unbracketed_end(s) + back,
        forall|i: int| 0 <= i < back.len() ==> bracket(#[trigger] back[i]),
        unbracketed_end(s).len() > 0 ==> !bracket(unbracketed_end(s).last()) && unbracketed_end(
            s,
        )[0] == s[0],
    decreases s.len(),
{
    if s.len() > 0 && bracket(s.last()) {
        let rest = lemma_brackets_end(s.drop_last());
        let back = rest + seq![s.last()];
        assert(s =~= s.drop_last() + seq![s.last()]);
        assert(s =~= unbracketed_end(s) + back);
        back
    } else {
        assert(s =~= s + Seq::<char>::empty());
        Seq::empty()
    }
}

/// A host and a port are parted at the last colon. The port is a number of at most 65535.
pub proof fn host_and_port_are_parted(host: Seq<char>, port: Seq<char>)
    requires
        !port.contains(':'),
    ensures
        host_port(host.push(':') + port) == match number::parsed_number(port, 65535) {
            Ok(n) => Ok::<(Seq<char>, nat), Problem>((unbracketed(host), n)),
            Err(error) => Err::<(Seq<char>, nat), Problem>(Problem::Port(error)),
        },
        host_port(port) == Err::<(Seq<char>, nat), Problem>(Problem::MissingHostPort),
{
    text::lemma_cut_joined(host, ':', port);
    port.index_of_last_ensures(':');
}

/// The description in a `ss` link is parted at the last `@` and, before it, at the first
/// colon, so that a password may hold both. Without them the link is refused.
pub proof fn description_is_parted(cipher: Seq<char>, password: Seq<char>, address: Seq<char>)
    requires
        !address.contains('@'),
        !cipher.contains(':'),
    ensures
        ss_parts((cipher.push(':') + password).push('@') + address) == match host_port(address) {
            Ok((server, port)) => Ok::<SsParts, Problem>(
                SsParts { cipher, password, server, port },
            ),
            Err(problem) => Err::<SsParts, Problem>(problem),
        },
        ss_parts(cipher.push('@') + address) == Err::<SsParts, Problem>(Problem::SsMissingCipher),
        ss_parts(address) == Err::<SsParts, Problem>(Problem::SsMissingServer),
{
    text::lemma_cut_joined(cipher.push(':') + password, '@', address);
    text::lemma_cut_joined(cipher, ':', password);
    text::lemma_cut_joined(cipher, '@', address);
    cipher.index_of_first_ensures(':');
    address.index_of_last_ensures('@');
}

/// The proxy of a name and a description has what the description says, the cipher and the
/// password without their percent-encoding where that can be undone, and no other entry.
pub proof fn ss_proxy_as_said(name: Seq<char>, parts: SsParts)
    ensures
        ({
            let proxy = ss_tree(name, parts);
            &&& proxy is Mapping && proxy->Mapping_0.len() == 7
            &&& yaml::member(proxy, "name"@) == Some(YamlTree::Text(name))
            &&& yaml::member(proxy, "type"@) == Some(YamlTree::Text("ss"@))
            &&& yaml::member(proxy, "server"@) == Some(YamlTree::Text(parts.server))
            &&& yaml::member(proxy, "port"@) == Some(YamlTree::Integer(parts.port as int))
            &&& yaml::member(proxy, "cipher"@) == Some(
                YamlTree::Text(
                    match encoding::url_decoded(parts.cipher) {
                        Some(cipher) => cipher,
                        None => parts.cipher,
                    },
                ),
            )
            &&& yaml::member(proxy, "password"@) == Some(
                YamlTree::Text(
                    match encoding::url_decoded(parts.password) {
                        Some(password) => password,
                        None => parts.password,
                    },
                ),
            )
            &&& yaml::member(proxy, "udp"@) == Some(YamlTree::Bool(true))
        }),
{
    lemma_ss_keys();
    let entries = ss_tree(name, parts)->Mapping_0;
    yaml::first_entry_counts(entries, 0, "name"@);
    yaml::first_entry_counts(entries, 1, "type"@);
    yaml::first_entry_counts(entries, 2, "server"@);
    yaml::first_entry_counts(entries, 3, "port"@);
    yaml::first_entry_counts(entries, 4, "cipher"@);
    yaml::first_entry_counts(entries, 5, "password"@);
    yaml::first_entry_counts(entries, 6, "udp"@);
}

/// A `ss` link gives the proxy of its description, which holds an `@` or is unpacked, under
/// the name in its fragment. What stands behind a `?` does not count; a name that cannot be
/// decoded is `ss`, and without a fragment the name is empty.
pub proof fn ss_link_as_said(description: Seq<char>, query: Seq<char>, fragment: Seq<char>)
    requires
        !description.contains('#'),
        !description.contains('?'),
        !query.contains('#'),
    ensures
        ({
            let name = match encoding::url_decoded(fragment) {
                Some(name) => name,
                None => "ss"@,
            };
            let plain = if description.contains('@') {
                Ok::<Seq<char>, Fault>(description)
            } else {
                encoding::base64_text(description)
            };
            let made = match plain {
                Err(fault) => Err::<YamlTree, Fault>(fault),
                Ok(main) => match ss_parts(main) {
                    Ok(parts) => Ok::<YamlTree, Fault>(ss_tree(name, parts)),
                    Err(problem) => Err::<YamlTree, Fault>(Fault::Problem(problem)),
                },
            };
            &&& ss_link("ss://"@ + (description.push('#') + fragment)) == made
            &&& ss_link("ss://"@ + ((description.push('?') + query).push('#') + fragment)) == made
            &&& ss_link("ss://"@ + description) == ss_link(
                "ss://"@ + (description.push('#') + Seq::<char>::empty()),
            )
            &&& ss_link("ss://"@ + (description.push('?') + query)) == ss_link(
                "ss://"@ + description,
            )
        }),
{
    lemma_ss_uri_parts(description, fragment);
    let body = description.push('?') + query;
    assert(!body.contains('#')) by {
        if body.contains('#') {
            let i = body.index_of('#');
            if i < description.len() {
                assert(description[i] == '#');
            } else if i > description.len() {
                assert(query[i - description.len() - 1] == '#');
            }
        }
    }
    let raw = body.push('#') + fragment;
    let uri = "ss://"@ + raw;
    assert("ss://"@.is_prefix_of(uri)) by {
        assert("ss://"@ =~= uri.subrange(0, "ss://"@.len() as int));
    }
    assert(uri.skip("ss://"@.len() as int) =~= raw);
    text::lemma_cut_joined(body, '#', fragment);
    text::lemma_cut_joined(description, '?', query);
    let bare = "ss://"@ + description;
    assert("ss://"@.is_prefix_of(bare)) by {
        assert("ss://"@ =~= bare.subrange(0, "ss://"@.len() as int));
    }
    assert(bare.skip("ss://"@.len() as int) =~= description);
    description.index_of_first_ensures('#');
    description.index_of_first_ensures('?');
    lemma_ss_uri_parts(description, Seq::empty());
    text::prefix_and_rest_make_the_text("ss://"@ + body, "ss://"@, body);
    body.index_of_first_ensures('#');
}

/// What stands behind `vmess://` is Base64 of a JSON document that describes a proxy, and
/// where one of these fails it is said which.
pub proof fn vmess_link_or_fault(coded: Seq<char>)
    ensures
        ({
            let made = vmess_link("vmess://"@ + coded);
            match encoding::base64_text(coded) {
                Err(fault) => made == Err::<YamlTree, Fault>(fault),
                Ok(document) => match json::json_document(document) {
                    None => made == Err::<YamlTree, Fault>(Fault::Json),
                    Some(json) => match vmess_tree(json) {
                        Ok(proxy) => made == Ok::<YamlTree, Fault>(proxy),
                        Err(problem) => made == Err::<YamlTree, Fault>(Fault::Problem(problem)),
                    },
                },
            }
        }),
{
    text::prefix_and_rest_make_the_text("vmess://"@ + coded, "vmess://"@, coded);
}

} // verus!
