//! Subscriptions: the proxies in a downloaded text, whatever its format.

use crate::encoding::{self, decode_base64_to_string, decode_standard, read_output};
use crate::error::{Fault, Problem, SubscriptionError};
use crate::link::{self, parse_ss_uri, parse_vmess_uri};
use crate::text::{self, has_prefix, split_lines, to_chars, to_text, trim};
use crate::yaml::{self, insert, mapping, parse_yaml, sequence, Yaml, YamlTree};
use vstd::prelude::*;
use vstd::utf8::*;

verus! {

// ---------------------------------------------------------------------------
// Lists of links
// ---------------------------------------------------------------------------

/// What the link on a line gives: nothing where the line is no link of a known kind.
pub open spec fn linked_proxy(line: Seq<char>) -> Option<Result<YamlTree, Fault>> {
    if "ss://"@.is_prefix_of(line) {
        Some(link::ss_link(line))
    } else if "vmess://"@.is_prefix_of(line) {
        Some(link::vmess_link(line))
    } else {
        None
    }
}

/// The proxies of the links on the given lines, in their order, or what is wrong with the
/// first link that cannot be read. Other lines do not count.
pub open spec fn linked_proxies(lines: Seq<Seq<char>>) -> Result<Seq<YamlTree>, Fault>
    decreases lines.len(),
{
    if lines.len() == 0 {
        Ok(Seq::empty())
    } else {
        match linked_proxies(lines.drop_last()) {
            Ok(proxies) => match linked_proxy(text::trimmed(lines.last())) {
                Some(Ok(proxy)) => Ok(proxies.push(proxy)),
                Some(Err(fault)) => Err(fault),
                None => Ok(proxies),
            },
            Err(fault) => Err(fault),
        }
    }
}

/// The document that holds the given proxies.
pub open spec fn proxies_document(proxies: Seq<YamlTree>) -> YamlTree {
    YamlTree::Mapping(seq![yaml::field("proxies"@, YamlTree::Sequence(proxies))])
}

/// The document of a list of links: nothing where no line is a link.
pub open spec fn uri_document(body: Seq<char>) -> Result<Option<YamlTree>, Fault> {
    match linked_proxies(text::lines(body)) {
        Ok(proxies) => if proxies.len() == 0 {
            Ok(None)
        } else {
            Ok(Some(proxies_document(proxies)))
        },
        Err(fault) => Err(fault),
    }
}

/// The tree of an optional document.
pub open spec fn optional_tree(document: Option<Yaml>) -> Option<YamlTree> {
    match document {
        Some(yaml) => Some(yaml@),
        None => None,
    }
}

/// The outcome of reading a list of links.
pub open spec fn list_outcome(read: Result<Option<Yaml>, SubscriptionError>) -> Result<
    Option<YamlTree>,
    Fault,
> {
    match read {
        Ok(document) => Ok(optional_tree(document)),
        Err(error) => Err(error@),
    }
}

/// Reads a list of links, one on a line.
pub fn parse_uri_subscription(body: &str) -> (read: Result<Option<Yaml>, SubscriptionError>)
    ensures
        list_outcome(read) == uri_document(body@),
{
    let all: Vec<String> = split_lines(to_chars(body).as_slice());
    let ghost lines = text::lines(body@);
    let mut proxies: Vec<Yaml> = Vec::new();
    assert(lines.take(0) =~= Seq::<Seq<char>>::empty());
    assert(yaml::trees(proxies@) =~= Seq::<YamlTree>::empty());
    for i in 0..all.len()
        invariant
            lines == text::lines(body@),
            text::texts(all@) == lines,
            linked_proxies(lines.take(i as int)) == Ok::<Seq<YamlTree>, Fault>(
                yaml::trees(proxies@),
            ),
    {
        let ghost before = yaml::trees(proxies@);
        let chars: Vec<char> = to_chars(all[i].as_str());
        let line: &[char] = trim(chars.as_slice());
        proof {
            assert(lines[i as int] == all@[i as int]@);
            assert(lines.take(i + 1).drop_last() =~= lines.take(i as int));
            assert(lines.take(i + 1).last() == lines[i as int]);
        }
        let read: Option<Result<Yaml, SubscriptionError>> = if has_prefix(line, "ss://") {
            Some(parse_ss_uri(to_text(line).as_str()))
        } else if has_prefix(line, "vmess://") {
            Some(parse_vmess_uri(to_text(line).as_str()))
        } else {
            None
        };
        match read {
            Some(Ok(proxy)) => {
                proxies.push(proxy);
                assert(yaml::trees(proxies@) =~= before.push(proxy@));
            },
            Some(Err(error)) => {
                proof {
                    lemma_first_fault(lines, i + 1);
                }
                return Err(error);
            },
            None => {},
        }
    }
    assert(lines.take(lines.len() as int) =~= lines);
    if proxies.len() == 0 {
        return Ok(None);
    }
    let ghost trees = yaml::trees(proxies@);
    let mut root: Vec<(Yaml, Yaml)> = Vec::new();
    insert(&mut root, "proxies", sequence(proxies));
    assert(yaml::entry_trees(root@) =~= proxies_document(trees)->Mapping_0);
    Ok(Some(mapping(root)))
}

/// What is wrong with a link is wrong with every list that goes on behind it.
proof fn lemma_first_fault(lines: Seq<Seq<char>>, n: int)
    requires
        0 <= n <= lines.len(),
        linked_proxies(lines.take(n)) is Err,
    ensures
        linked_proxies(lines) == linked_proxies(lines.take(n)),
    decreases lines.len(),
{
    if n == lines.len() {
        assert(lines.take(n) =~= lines);
    } else {
        assert(lines.drop_last().take(n) =~= lines.take(n));
        lemma_first_fault(lines.drop_last(), n);
    }
}

// ---------------------------------------------------------------------------
// Formats
// ---------------------------------------------------------------------------

/// The lines of a text joined without the white space around them.
pub open spec fn compacted(lines: Seq<Seq<char>>) -> Seq<char>
    decreases lines.len(),
{
    if lines.len() == 0 {
        Seq::empty()
    } else {
        compacted(lines.drop_last()) + text::trimmed(lines.last())
    }
}

/// Joins the lines of a text without the white space around them.
pub fn compact(body: &str) -> (joined: String)
    ensures
        joined@ == compacted(text::lines(body@)),
{
    let all: Vec<String> = split_lines(to_chars(body).as_slice());
    let ghost lines = text::lines(body@);
    let mut joined = String::new();
    assert(lines.take(0) =~= Seq::<Seq<char>>::empty());
    for i in 0..all.len()
        invariant
            text::texts(all@) == lines,
            joined@ == compacted(lines.take(i as int)),
    {
        let chars: Vec<char> = to_chars(all[i].as_str());
        let line: String = to_text(trim(chars.as_slice()));
        joined.append(line.as_str());
        proof {
            assert(lines[i as int] == all@[i as int]@);
            assert(lines.take(i + 1).drop_last() =~= lines.take(i as int));
            assert(lines.take(i + 1).last() == lines[i as int]);
        }
    }
    assert(lines.take(lines.len() as int) =~= lines);
    joined
}

/// Whether a document lists proxies.
pub open spec fn lists_proxies(document: Option<YamlTree>) -> bool {
    match document {
        Some(tree) => yaml::member(tree, "proxies"@) is Some,
        None => false,
    }
}

/// The YAML document packed in standard Base64.
pub open spec fn packed_document(compact: Seq<char>) -> Option<YamlTree> {
    match encoding::output_text(encoding::standard_base64(compact)) {
        Some(decoded) => yaml::yaml_document(decoded),
        None => None,
    }
}

/// The list of links packed in Base64; nothing where the text is not Base64.
pub open spec fn packed_links(compact: Seq<char>) -> Result<Option<YamlTree>, Fault> {
    match encoding::base64_text(compact) {
        Ok(decoded) => uri_document(decoded),
        Err(_) => Ok(None),
    }
}

/// The document of a subscription among its four readings: a YAML document, a packed YAML
/// document, a list of links, a packed list of links. The first that gives proxies counts;
/// a broken link ends the search.
pub open spec fn chosen_document(
    plain: Option<YamlTree>,
    packed: Option<YamlTree>,
    links: Result<Option<YamlTree>, Fault>,
    packed_links: Result<Option<YamlTree>, Fault>,
) -> Result<YamlTree, Fault> {
    if lists_proxies(plain) {
        Ok(plain->0)
    } else if lists_proxies(packed) {
        Ok(packed->0)
    } else {
        match links {
            Err(fault) => Err(fault),
            Ok(Some(document)) => Ok(document),
            Ok(None) => match packed_links {
                Err(fault) => Err(fault),
                Ok(Some(document)) => Ok(document),
                Ok(None) => Err(Fault::Problem(Problem::UnknownFormat)),
            },
        }
    }
}

/// The document of a subscription.
pub open spec fn subscription_document(body: Seq<char>) -> Result<YamlTree, Fault> {
    let compact = compacted(text::lines(body));
    chosen_document(
        yaml::yaml_document(body),
        packed_document(compact),
        uri_document(body),
        packed_links(compact),
    )
}

/// The outcome of reading a subscription.
pub open spec fn document_outcome(read: Result<Yaml, SubscriptionError>) -> Result<
    YamlTree,
    Fault,
> {
    match read {
        Ok(yaml) => Ok(yaml@),
        Err(error) => Err(error@),
    }
}

fn has_proxies(document: &Option<Yaml>) -> (has: bool)
    ensures
        has == lists_proxies(optional_tree(*document)),
{
    match document {
        Some(yaml) => yaml.get("proxies").is_some(),
        None => false,
    }
}

/// Chooses the document of a subscription among its four readings.
pub fn choose_document(
    plain: Option<Yaml>,
    packed: Option<Yaml>,
    links: Result<Option<Yaml>, SubscriptionError>,
    packed_links: Result<Option<Yaml>, SubscriptionError>,
) -> (chosen: Result<Yaml, SubscriptionError>)
    ensures
        document_outcome(chosen) == chosen_document(
            optional_tree(plain),
            optional_tree(packed),
            list_outcome(links),
            list_outcome(packed_links),
        ),
        !lists_proxies(optional_tree(plain)) && !lists_proxies(optional_tree(packed)) ==> {
            &&& links matches Err(error) ==> chosen == Err::<Yaml, SubscriptionError>(error)
            &&& links matches Ok(None) ==> (packed_links matches Err(error) ==> chosen == Err::<
                Yaml,
                SubscriptionError,
            >(error))
        },
        lists_proxies(optional_tree(plain)) ==> chosen == Ok::<Yaml, SubscriptionError>(plain->0),
        !lists_proxies(optional_tree(plain)) && lists_proxies(optional_tree(packed)) ==> chosen
            == Ok::<Yaml, SubscriptionError>(packed->0),
{
    if has_proxies(&plain) {
        if let Some(document) = plain {
            return Ok(document);
        }
    }
    if has_proxies(&packed) {
        if let Some(document) = packed {
            return Ok(document);
        }
    }
    match links {
        Err(error) => Err(error),
        Ok(Some(document)) => Ok(document),
        Ok(None) => match packed_links {
            Err(error) => Err(error),
            Ok(Some(document)) => Ok(document),
            Ok(None) => Err(SubscriptionError::Problem(Problem::UnknownFormat)),
        },
    }
}

/// Whether a subscription is a text packed in standard Base64, in one line or in several.
pub open spec fn packs_standard(body: Seq<char>, plain: Seq<char>) -> bool {
    compacted(text::lines(body)) == encoding::base64_encoded(encode_utf8(plain))
}

/// Whether a subscription is a text packed in Base64 of either alphabet, padded or not, in
/// one line or in several.
pub open spec fn packs(body: Seq<char>, plain: Seq<char>) -> bool {
    encoding::base64_of(compacted(text::lines(body)), encode_utf8(plain))
}

/// The outcome of a subscription that is a list of links.
pub open spec fn links_outcome(links: Result<Option<YamlTree>, Fault>) -> Result<YamlTree, Fault> {
    match links {
        Ok(Some(document)) => Ok(document),
        Ok(None) => Err(Fault::Problem(Problem::UnknownFormat)),
        Err(fault) => Err(fault),
    }
}

/// Reads a subscription: a Clash YAML document or a list of `ss` and `vmess` links, either
/// of them as it stands or packed in Base64. What is packed gives the same as what stands
/// open.
pub fn parse_subscription(body: &str) -> (document: Result<Yaml, SubscriptionError>)
    ensures
        document_outcome(document) == subscription_document(body@),
        forall|plain: Seq<char>| #[trigger]
            packs_standard(body@, plain) && lists_proxies(yaml::yaml_document(plain))
                ==> document_outcome(document) == Ok::<YamlTree, Fault>(
                yaml::yaml_document(plain)->0,
            ),
        forall|list: Seq<char>| #[trigger]
            packs(body@, list) && !lists_proxies(yaml::yaml_document(list)) && uri_document(list)
                != Ok::<Option<YamlTree>, Fault>(None) ==> document_outcome(document)
                == links_outcome(uri_document(list)),
{
    let plain: Option<Yaml> = parse_yaml(body);
    let joined: String = compact(body);
    let unpacked: Option<Vec<u8>> = match decode_standard(joined.as_str()) {
        Ok(bytes) => Some(bytes),
        Err(_) => None,
    };
    let packed: Option<Yaml> = match read_output(unpacked) {
        Some(decoded) => parse_yaml(decoded.as_str()),
        None => None,
    };
    let links: Result<Option<Yaml>, SubscriptionError> = parse_uri_subscription(body);
    let packed_links: Result<Option<Yaml>, SubscriptionError> = match decode_base64_to_string(
        joined.as_str(),
    ) {
        Ok(decoded) => parse_uri_subscription(decoded.as_str()),
        Err(_) => Ok(None),
    };
    proof {
        assert(yaml::unmarked(body@) ==> !lists_proxies(yaml::yaml_document(body@)));
        lemma_packed_counts(body@);
    }
    choose_document(plain, packed, links, packed_links)
}

// ---------------------------------------------------------------------------
// Proxies
// ---------------------------------------------------------------------------

/// The proxies that a document lists.
pub open spec fn proxy_items(document: YamlTree) -> Option<Seq<YamlTree>> {
    match yaml::member(document, "proxies"@) {
        Some(proxies) => yaml::items_of(proxies),
        None => None,
    }
}

/// The proxies that a document lists.
pub fn read_proxy_items(config: &Yaml) -> (items: Result<Vec<Yaml>, Problem>)
    ensures
        match items {
            Ok(list) => proxy_items(config@) == Some(yaml::trees(list@)),
            Err(problem) => proxy_items(config@) is None && problem == Problem::MissingProxies,
        },
{
    match config.get("proxies") {
        Some(proxies) => match proxies.as_sequence() {
            Some(list) => {
                let mut copy: Vec<Yaml> = Vec::new();
                for i in 0..list.len()
                    invariant
                        copy@.len() == i,
                        forall|j: int| 0 <= j < i ==> (#[trigger] copy@[j])@ == list@[j]@,
                {
                    copy.push(list[i].clone());
                }
                assert(yaml::trees(copy@) =~= yaml::trees(list@));
                Ok(copy)
            },
            None => Err(Problem::MissingProxies),
        },
        None => Err(Problem::MissingProxies),
    }
}

/// The name of a proxy.
pub open spec fn name_of(proxy: YamlTree) -> Option<Seq<char>> {
    match yaml::member(proxy, "name"@) {
        Some(name) => yaml::text_of(name),
        None => None,
    }
}

/// The name of a proxy.
pub fn proxy_name(proxy: &Yaml) -> (name: Result<String, Problem>)
    ensures
        match name {
            Ok(text) => name_of(proxy@) == Some(text@),
            Err(problem) => name_of(proxy@) is None && problem == Problem::MissingName,
        },
{
    match proxy.get("name") {
        Some(name) => match name.as_str() {
            Some(text) => Ok(text.to_string()),
            None => Err(Problem::MissingName),
        },
        None => Err(Problem::MissingName),
    }
}

// ---------------------------------------------------------------------------
// What holds of every subscription
// ---------------------------------------------------------------------------

proof fn lemma_link_named(line: Seq<char>)
    ensures
        linked_proxy(line) matches Some(Ok(proxy)) ==> name_of(proxy) is Some,
{
    if let Some(Ok(proxy)) = linked_proxy(line) {
        yaml::first_entry_counts(proxy->Mapping_0, 0, "name"@);
    }
}

proof fn lemma_links_named(lines: Seq<Seq<char>>)
    ensures
        linked_proxies(lines) matches Ok(proxies) ==> forall|i: int|
            0 <= i < proxies.len() ==> name_of(#[trigger] proxies[i]) is Some,
    decreases lines.len(),
{
    if lines.len() > 0 {
        lemma_links_named(lines.drop_last());
        lemma_link_named(text::trimmed(lines.last()));
    }
}

/// The document of a list of links lists at least one proxy, and each of them has a name.
pub proof fn links_give_named_proxies(body: Seq<char>)
    requires
        uri_document(body) matches Ok(Some(_)),
    ensures
        ({
            let items = proxy_items(uri_document(body)->Ok_0->0);
            &&& items is Some
            &&& items->0.len() > 0
            &&& forall|i: int| 0 <= i < items->0.len() ==> name_of(#[trigger] items->0[i]) is Some
        }),
{
    let proxies = linked_proxies(text::lines(body))->Ok_0;
    lemma_links_named(text::lines(body));
    yaml::first_entry_counts(proxies_document(proxies)->Mapping_0, 0, "proxies"@);
}

proof fn lemma_trimmed_part(s: Seq<char>, c: char)
    ensures
        text::trimmed(s).contains(c) ==> s.contains(c),
{
    lemma_trimmed_start_part(s, c);
    lemma_trimmed_end_part(text::trimmed_start(s), c);
}

proof fn lemma_trimmed_start_part(s: Seq<char>, c: char)
    ensures
        text::trimmed_start(s).contains(c) ==> s.contains(c),
    decreases s.len(),
{
    if s.len() > 0 && text::white_space(s[0]) {
        lemma_trimmed_start_part(s.skip(1), c);
        if s.skip(1).contains(c) {
            let i = s.skip(1).index_of(c);
            assert(s[i + 1] == c);
        }
    }
}

proof fn lemma_trimmed_end_part(s: Seq<char>, c: char)
    ensures
        text::trimmed_end(s).contains(c) ==> s.contains(c),
    decreases s.len(),
{
    if s.len() > 0 && text::white_space(s.last()) {
        lemma_trimmed_end_part(s.drop_last(), c);
        if s.drop_last().contains(c) {
            let i = s.drop_last().index_of(c);
            assert(s[i] == c);
        }
    }
}

proof fn lemma_lines_part(s: Seq<char>, c: char)
    requires
        !s.contains(c),
    ensures
        forall|i: int| 0 <= i < text::lines(s).len() ==> !(#[trigger] text::lines(s)[i]).contains(c),
    decreases s.len(),
{
    s.index_of_first_ensures('\n');
    if s.len() > 0 {
        match s.index_of_first('\n') {
            Some(at) => {
                let front = text::without_return(s.take(at));
                let rest = s.skip(at + 1);
                assert(!front.contains(c)) by {
                    if front.contains(c) {
                        let i = front.index_of(c);
                        assert(s[i] == c);
                    }
                }
                assert(!rest.contains(c)) by {
                    if rest.contains(c) {
                        let i = rest.index_of(c);
                        assert(s[i + at + 1] == c);
                    }
                }
                lemma_lines_part(rest, c);
                assert forall|i: int| 0 <= i < text::lines(s).len() implies !(
                #[trigger] text::lines(s)[i]).contains(c) by {
                    if i > 0 {
                        assert(text::lines(s)[i] == text::lines(rest)[i - 1]);
                    }
                }
            },
            None => {},
        }
    }
}

proof fn lemma_no_links(lines: Seq<Seq<char>>)
    requires
        forall|i: int| 0 <= i < lines.len() ==> !(#[trigger] lines[i]).contains(':'),
    ensures
        linked_proxies(lines) == Ok::<Seq<YamlTree>, Fault>(Seq::empty()),
    decreases lines.len(),
{
    if lines.len() > 0 {
        let fewer = lines.drop_last();
        assert forall|i: int| 0 <= i < fewer.len() implies !(#[trigger] fewer[i]).contains(':') by {
            assert(fewer[i] == lines[i]);
        }
        lemma_no_links(fewer);
        let line = text::trimmed(lines.last());
        lemma_trimmed_part(lines.last(), ':');
        reveal_strlit("ss://");
        reveal_strlit("vmess://");
        assert(!"ss://"@.is_prefix_of(line)) by {
            if "ss://"@.is_prefix_of(line) {
                assert("ss://"@[2] == ':');
                assert(line[2] == ':');
            }
        }
        assert(!"vmess://"@.is_prefix_of(line)) by {
            if "vmess://"@.is_prefix_of(line) {
                assert("vmess://"@[5] == ':');
                assert(line[5] == ':');
            }
        }
    }
}

/// A YAML document that lists proxies is the document of the subscription, and it is so
/// packed in standard Base64 too, where the packed text is no such document itself.
pub proof fn packed_yaml_same(packed: Seq<char>, document: Seq<char>)
    requires
        packs_standard(packed, document),
        lists_proxies(yaml::yaml_document(document)),
        !lists_proxies(yaml::yaml_document(packed)),
    ensures
        subscription_document(document) == Ok::<YamlTree, Fault>(yaml::yaml_document(document)->0),
        subscription_document(packed) == subscription_document(document),
{
    encoding::base64_reads_back(encode_utf8(document));
    encode_utf8_valid_utf8(document);
    encode_utf8_decode_utf8(document);
}

proof fn lemma_compacted_front(first: Seq<char>, rest: Seq<Seq<char>>)
    ensures
        compacted(seq![first] + rest) == text::trimmed(first) + compacted(rest),
    decreases rest.len(),
{
    let all = seq![first] + rest;
    if rest.len() == 0 {
        reveal_with_fuel(compacted, 2);
        assert(all.drop_last() =~= Seq::<Seq<char>>::empty());
        assert(compacted(all) =~= text::trimmed(first));
        assert(text::trimmed(first) + compacted(rest) =~= text::trimmed(first));
    } else {
        lemma_compacted_front(first, rest.drop_last());
        assert(all.drop_last() =~= seq![first] + rest.drop_last());
        assert(compacted(all) =~= text::trimmed(first) + compacted(rest));
    }
}

/// A line break does not count when the lines of a text are joined: what stands before it
/// and what stands behind it join to the same texts as they do alone.
pub proof fn line_breaks_do_not_count(front: Seq<char>, back: Seq<char>)
    ensures
        compacted(text::lines(front.push('\n') + back)) == compacted(text::lines(front))
            + compacted(text::lines(back)),
    decreases front.len(),
{
    let whole = front.push('\n') + back;
    match text::cut_first(front, '\n') {
        Some((line, rest)) => {
            front.index_of_first_ensures('\n');
            assert(!line.contains('\n')) by {
                if line.contains('\n') {
                    let i = line.index_of('\n');
                    assert(front[i] == '\n');
                }
            }
            let more = rest.push('\n') + back;
            assert(whole =~= line.push('\n') + more);
            text::lemma_cut_joined(line, '\n', more);
            line_breaks_do_not_count(rest, back);
            lemma_compacted_front(text::without_return(line), text::lines(rest));
            lemma_compacted_front(text::without_return(line), text::lines(more));
            assert(compacted(text::lines(whole)) =~= compacted(text::lines(front)) + compacted(
                text::lines(back),
            ));
        },
        None => {
            front.index_of_first_ensures('\n');
            text::lemma_cut_joined(front, '\n', back);
            lemma_compacted_front(text::without_return(front), text::lines(back));
            if front.len() > 0 {
                if front.last() == '\r' {
                    text::lemma_trimmed_without_last(front);
                }
                lemma_compacted_front(front, Seq::empty());
                assert(text::lines(front) =~= seq![front] + Seq::<Seq<char>>::empty());
                assert(compacted(text::lines(front)) =~= text::trimmed(front));
            } else {
                assert(compacted(text::lines(front)) =~= Seq::<char>::empty());
                assert(text::trimmed(text::without_return(front)) =~= Seq::<char>::empty());
            }
        },
    }
}

/// A list of links that is no YAML document with proxies gives the proxies of the links.
pub proof fn open_links_count(list: Seq<char>)
    requires
        !lists_proxies(yaml::yaml_document(list)),
        uri_document(list) != Ok::<Option<YamlTree>, Fault>(None),
    ensures
        subscription_document(list) == links_outcome(uri_document(list)),
{
    let joined = compacted(text::lines(list));
    if !list.contains(':') {
        lemma_lines_part(list, ':');
        lemma_no_links(text::lines(list));
    }
    lemma_compacted_keeps(list, ':');
    if encoding::standard_base64(joined) is Some {
        let bytes = encoding::standard_base64(joined)->0;
        assert(encoding::base64_encoded(bytes) == joined);
        encoding::base64_encoded_plain(bytes);
        let i = joined.index_of(':');
        assert(encoding::base64_letter(encoding::base64_encoded(bytes)[i]) || joined[i] == '=');
    }
}

/// A list of links that is no YAML document with proxies gives the same packed in Base64 as
/// it does as it stands, where the packed text is no such document either.
pub proof fn packed_links_same(packed: Seq<char>, list: Seq<char>)
    requires
        packs(packed, list),
        uri_document(list) != Ok::<Option<YamlTree>, Fault>(None),
        !lists_proxies(yaml::yaml_document(list)),
        !lists_proxies(yaml::yaml_document(packed)),
    ensures
        subscription_document(packed) == links_outcome(uri_document(list)),
        subscription_document(packed) == subscription_document(list),
{
    let joined = compacted(text::lines(packed));
    open_links_count(list);
    lemma_packed_unmarked(packed, encode_utf8(list));
    lemma_lines_part(packed, ':');
    lemma_no_links(text::lines(packed));
    encoding::base64_form_reads_back(list, joined);
    encoding::base64_form_bytes(joined, encode_utf8(list));
    encode_utf8_valid_utf8(list);
    encode_utf8_decode_utf8(list);
}

/// What is packed in a text that is no mapping without the characters that make one gives
/// the same as what stands open.
proof fn lemma_packed_counts(body: Seq<char>)
    requires
        yaml::unmarked(body) ==> !lists_proxies(yaml::yaml_document(body)),
    ensures
        forall|plain: Seq<char>| #[trigger]
            packs_standard(body, plain) && lists_proxies(yaml::yaml_document(plain))
                ==> subscription_document(body) == Ok::<YamlTree, Fault>(
                yaml::yaml_document(plain)->0,
            ),
        forall|list: Seq<char>| #[trigger]
            packs(body, list) && !lists_proxies(yaml::yaml_document(list)) && uri_document(list)
                != Ok::<Option<YamlTree>, Fault>(None) ==> subscription_document(body)
                == links_outcome(uri_document(list)),
{
    assert forall|plain: Seq<char>| #[trigger]
        packs_standard(body, plain) && lists_proxies(
            yaml::yaml_document(plain),
        ) implies subscription_document(body) == Ok::<YamlTree, Fault>(
        yaml::yaml_document(plain)->0,
    ) by {
        encoding::standard_is_a_form(encode_utf8(plain));
        lemma_packed_unmarked(body, encode_utf8(plain));
        packed_yaml_same(body, plain);
    }
    assert forall|list: Seq<char>| #[trigger]
        packs(body, list) && !lists_proxies(yaml::yaml_document(list)) && uri_document(list)
            != Ok::<Option<YamlTree>, Fault>(None) implies subscription_document(body)
        == links_outcome(uri_document(list)) by {
        lemma_packed_unmarked(body, encode_utf8(list));
        packed_links_same(body, list);
    }
}

/// A text that is packed in Base64 holds none of the characters that make a mapping.
proof fn lemma_packed_unmarked(packed: Seq<char>, bytes: Seq<u8>)
    requires
        encoding::base64_of(compacted(text::lines(packed)), bytes),
    ensures
        yaml::unmarked(packed),
{
    let joined = compacted(text::lines(packed));
    encoding::base64_form_plain(joined, bytes);
    assert forall|c: char| c == ':' || c == '?' || c == '{' implies !#[trigger] packed.contains(
        c,
    ) by {
        if packed.contains(c) {
            lemma_compacted_keeps(packed, c);
            let i = joined.index_of(c);
            assert(encoding::base64_letter(joined[i]) || joined[i] == '-' || joined[i] == '_'
                || joined[i] == '=');
        }
    }
}

proof fn lemma_trimmed_start_keeps(s: Seq<char>, c: char)
    requires
        s.contains(c),
        !text::white_space(c),
    ensures
        text::trimmed_start(s).contains(c),
    decreases s.len(),
{
    if text::white_space(s[0]) {
        let i = s.index_of(c);
        assert(s.skip(1)[i - 1] == c);
        lemma_trimmed_start_keeps(s.skip(1), c);
    }
}

proof fn lemma_trimmed_end_keeps(s: Seq<char>, c: char)
    requires
        s.contains(c),
        !text::white_space(c),
    ensures
        text::trimmed_end(s).contains(c),
    decreases s.len(),
{
    if text::white_space(s.last()) {
        let i = s.index_of(c);
        assert(s.drop_last()[i] == c);
        lemma_trimmed_end_keeps(s.drop_last(), c);
    }
}

proof fn lemma_trimmed_keeps(s: Seq<char>, c: char)
    requires
        s.contains(c),
        !text::white_space(c),
    ensures
        text::trimmed(s).contains(c),
{
    lemma_trimmed_start_keeps(s, c);
    lemma_trimmed_end_keeps(text::trimmed_start(s), c);
}

/// The lines of a text, joined, hold every character of the text but white space.
proof fn lemma_compacted_keeps(s: Seq<char>, c: char)
    requires
        s.contains(c),
        !text::white_space(c),
    ensures
        compacted(text::lines(s)).contains(c),
    decreases s.len(),
{
    let at = s.index_of(c);
    match text::cut_first(s, '\n') {
        Some((line, rest)) => {
            s.index_of_first_ensures('\n');
            let end = s.index_of_first('\n')->0;
            let first = text::without_return(line);
            lemma_compacted_front(first, text::lines(rest));
            let whole = compacted(text::lines(s));
            let front = text::trimmed(first);
            if at < end {
                assert(line[at] == c);
                assert(first[at] == c);
                lemma_trimmed_keeps(first, c);
                let i = front.index_of(c);
                assert(whole[i] == c);
            } else {
                assert(rest[at - end - 1] == c);
                lemma_compacted_keeps(rest, c);
                let i = compacted(text::lines(rest)).index_of(c);
                assert(whole[front.len() + i] == c);
            }
        },
        None => {
            lemma_compacted_front(s, Seq::empty());
            assert(text::lines(s) =~= seq![s] + Seq::<Seq<char>>::empty());
            assert(compacted(text::lines(s)) =~= text::trimmed(s));
            lemma_trimmed_keeps(s, c);
        },
    }
}

/// The proxies of a list are those of its first part and then those of its second, and the
/// first thing wrong with it is the first in the first part, or else in the second.
pub proof fn linked_proxies_join(a: Seq<Seq<char>>, b: Seq<Seq<char>>)
    ensures
        linked_proxies(a) matches Ok(pa) ==> (linked_proxies(b) matches Ok(pb) ==> linked_proxies(
            a + b,
        ) == Ok::<Seq<YamlTree>, Fault>(pa + pb)),
        linked_proxies(a) is Err ==> linked_proxies(a + b) == linked_proxies(a),
        linked_proxies(a) is Ok && linked_proxies(b) is Err ==> linked_proxies(a + b)
            == linked_proxies(b),
    decreases b.len(),
{
    let all = a + b;
    if b.len() == 0 {
        assert(all =~= a);
        if linked_proxies(a) is Ok {
            assert(linked_proxies(a)->Ok_0 + Seq::<YamlTree>::empty() =~= linked_proxies(a)->Ok_0);
        }
    } else {
        assert(all.drop_last() =~= a + b.drop_last());
        assert(all.last() == b.last());
        linked_proxies_join(a, b.drop_last());
        if linked_proxies(a) is Ok && linked_proxies(b) is Ok {
            let pa = linked_proxies(a)->Ok_0;
            let pb = linked_proxies(b)->Ok_0;
            assert(linked_proxies(all)->Ok_0 =~= pa + pb);
        }
    }
}

/// Whether a line is a link of a kind that is read.
pub open spec fn is_link(line: Seq<char>) -> bool {
    "ss://"@.is_prefix_of(text::trimmed(line)) || "vmess://"@.is_prefix_of(text::trimmed(line))
}

/// A list of one line has the proxy of the link on it, or what is wrong with that link, and
/// no proxy where the line is blank or anything else.
pub proof fn one_line_counts(line: Seq<char>)
    ensures
        "ss://"@.is_prefix_of(text::trimmed(line)) ==> linked_proxies(seq![line]) == match
        link::ss_link(text::trimmed(line)) {
            Ok(proxy) => Ok::<Seq<YamlTree>, Fault>(seq![proxy]),
            Err(fault) => Err::<Seq<YamlTree>, Fault>(fault),
        },
        "vmess://"@.is_prefix_of(text::trimmed(line)) ==> linked_proxies(seq![line]) == match
        link::vmess_link(text::trimmed(line)) {
            Ok(proxy) => Ok::<Seq<YamlTree>, Fault>(seq![proxy]),
            Err(fault) => Err::<Seq<YamlTree>, Fault>(fault),
        },
        !is_link(line) ==> linked_proxies(seq![line]) == Ok::<Seq<YamlTree>, Fault>(Seq::empty()),
        linked_proxies(Seq::empty()) == Ok::<Seq<YamlTree>, Fault>(Seq::empty()),
{
    reveal_with_fuel(linked_proxies, 2);
    reveal_strlit("ss://");
    reveal_strlit("vmess://");
    assert(seq![line].drop_last() =~= Seq::<Seq<char>>::empty());
    let rest = text::trimmed(line);
    assert(!("ss://"@.is_prefix_of(rest) && "vmess://"@.is_prefix_of(rest))) by {
        if "ss://"@.is_prefix_of(rest) && "vmess://"@.is_prefix_of(rest) {
            assert(rest[0] == "ss://"@[0]);
            assert(rest[0] == "vmess://"@[0]);
        }
    }
    if linked_proxies(seq![line]) is Ok {
        let made = linked_proxies(seq![line])->Ok_0;
        if is_link(line) {
            assert(made =~= seq![made[0]]);
        }
    }
}

/// How many lines are links.
pub open spec fn link_count(lines: Seq<Seq<char>>) -> nat {
    lines.filter(|line: Seq<char>| is_link(line)).len()
}

/// A list has as many proxies as it has links.
pub proof fn every_link_gives_a_proxy(lines: Seq<Seq<char>>)
    ensures
        linked_proxies(lines) matches Ok(proxies) ==> proxies.len() == link_count(lines),
    decreases lines.len(),
{
    reveal(Seq::filter);
    if lines.len() > 0 {
        every_link_gives_a_proxy(lines.drop_last());
        one_line_counts(lines.last());
        linked_proxies_join(lines.drop_last(), seq![lines.last()]);
        assert(lines.drop_last() + seq![lines.last()] =~= lines);
    }
}

/// A line that is no link can be left out of a list.
pub proof fn other_lines_do_not_count(front: Seq<Seq<char>>, line: Seq<char>, back: Seq<Seq<char>>)
    requires
        !is_link(line),
    ensures
        linked_proxies(front + seq![line] + back) == linked_proxies(front + back),
{
    one_line_counts(line);
    linked_proxies_join(front, seq![line]);
    linked_proxies_join(front + seq![line], back);
    linked_proxies_join(front, back);
    if linked_proxies(front) is Ok {
        let proxies = linked_proxies(front)->Ok_0;
        assert(proxies + Seq::<YamlTree>::empty() =~= proxies);
    }
}

/// The document of a list of links lists exactly the proxies of the links on its lines and
/// holds nothing else, and there is no document exactly where there are none.
pub proof fn links_are_listed(body: Seq<char>)
    ensures
        match linked_proxies(text::lines(body)) {
            Ok(proxies) => if proxies.len() == 0 {
                uri_document(body) == Ok::<Option<YamlTree>, Fault>(None)
            } else {
                uri_document(body) matches Ok(Some(document)) && proxy_items(document) == Some(
                    proxies,
                ) && document is Mapping && document->Mapping_0.len() == 1
            },
            Err(fault) => uri_document(body) == Err::<Option<YamlTree>, Fault>(fault),
        },
{
    if let Ok(proxies) = linked_proxies(text::lines(body)) {
        yaml::first_entry_counts(proxies_document(proxies)->Mapping_0, 0, "proxies"@);
    }
}

/// What a subscription is read as: the first of a YAML document, a packed YAML document, a
/// list of links and a packed list of links that gives proxies. A broken link is complained
/// of before anything is unpacked behind it.
pub proof fn readings_in_order(
    plain: Option<YamlTree>,
    packed: Option<YamlTree>,
    links: Result<Option<YamlTree>, Fault>,
    packed_links: Result<Option<YamlTree>, Fault>,
)
    ensures
        ({
            let chosen = chosen_document(plain, packed, links, packed_links);
            let plain_counts = plain is Some && yaml::member(plain->0, "proxies"@) is Some;
            let packed_counts = packed is Some && yaml::member(packed->0, "proxies"@) is Some;
            &&& plain_counts ==> chosen == Ok::<YamlTree, Fault>(plain->0)
            &&& !plain_counts && packed_counts ==> chosen == Ok::<YamlTree, Fault>(packed->0)
            &&& !plain_counts && !packed_counts ==> {
                &&& links matches Err(fault) ==> chosen == Err::<YamlTree, Fault>(fault)
                &&& links matches Ok(Some(document)) ==> chosen == Ok::<YamlTree, Fault>(document)
                &&& links == Ok::<Option<YamlTree>, Fault>(None) ==> {
                    &&& packed_links matches Err(fault) ==> chosen == Err::<YamlTree, Fault>(fault)
                    &&& packed_links matches Ok(Some(document)) ==> chosen == Ok::<YamlTree, Fault>(
                        document,
                    )
                    &&& packed_links == Ok::<Option<YamlTree>, Fault>(None) ==> chosen == Err::<
                        YamlTree,
                        Fault,
                    >(Fault::Problem(Problem::UnknownFormat))
                }
            }
        }),
{
}

/// A subscription that is neither YAML with proxies nor Base64 nor a list of links is
/// refused.
pub proof fn unknown_formats_are_refused(body: Seq<char>)
    requires
        yaml::yaml_document(body) matches Some(tree) ==> yaml::member(tree, "proxies"@) is None,
        forall|i: int|
            0 <= i < text::lines(body).len() ==> !is_link(#[trigger] text::lines(body)[i]),
        encoding::base64_text(compacted(text::lines(body))) is Err,
        encoding::standard_base64(compacted(text::lines(body))) is None,
    ensures
        subscription_document(body) == Err::<YamlTree, Fault>(
            Fault::Problem(Problem::UnknownFormat),
        ),
{
    lemma_lines_without_links(text::lines(body));
}

proof fn lemma_lines_without_links(lines: Seq<Seq<char>>)
    requires
        forall|i: int| 0 <= i < lines.len() ==> !is_link(#[trigger] lines[i]),
    ensures
        linked_proxies(lines) == Ok::<Seq<YamlTree>, Fault>(Seq::empty()),
    decreases lines.len(),
{
    if lines.len() > 0 {
        let fewer = lines.drop_last();
        assert forall|i: int| 0 <= i < fewer.len() implies !is_link(#[trigger] fewer[i]) by {
            assert(fewer[i] == lines[i]);
        }
        assert(!is_link(lines[lines.len() - 1]));
        lemma_lines_without_links(fewer);
    }
}

/// A text of one line, joined, is the line without the white space around it.
pub proof fn one_line_is_trimmed(line: Seq<char>)
    requires
        !line.contains('\n'),
    ensures
        compacted(text::lines(line)) == text::trimmed(line),
{
    line.index_of_first_ensures('\n');
    if line.len() > 0 {
        lemma_compacted_front(line, Seq::empty());
        assert(text::lines(line) =~= seq![line] + Seq::<Seq<char>>::empty());
        assert(compacted(text::lines(line)) =~= text::trimmed(line));
    } else {
        assert(text::trimmed(line) =~= Seq::<char>::empty());
    }
}

/// The name of a proxy is the text under `name`, and it has none where no text stands there.
/// The proxies of a document are the items of the sequence under `proxies`.
pub proof fn names_and_proxies_are_entries(entries: Seq<(YamlTree, YamlTree)>, at: int)
    requires
        0 <= at < entries.len(),
    ensures
        entries[at].0 == YamlTree::Text("name"@) && (forall|i: int|
            0 <= i < at ==> (#[trigger] entries[i]).0 != YamlTree::Text("name"@)) ==> match
        entries[at].1 {
            YamlTree::Text(name) => name_of(YamlTree::Mapping(entries)) == Some(name),
            YamlTree::Tagged(_, _) => true,
            _ => name_of(YamlTree::Mapping(entries)) is None,
        },
        entries[at].0 == YamlTree::Text("proxies"@) && (forall|i: int|
            0 <= i < at ==> (#[trigger] entries[i]).0 != YamlTree::Text("proxies"@)) ==> match
        entries[at].1 {
            YamlTree::Sequence(items) => proxy_items(YamlTree::Mapping(entries)) == Some(items),
            YamlTree::Tagged(_, _) => true,
            _ => proxy_items(YamlTree::Mapping(entries)) is None,
        },
        !yaml::has_key(entries, "name"@) ==> name_of(YamlTree::Mapping(entries)) is None,
        !yaml::has_key(entries, "proxies"@) ==> proxy_items(YamlTree::Mapping(entries)) is None,
{
    if entries[at].0 == YamlTree::Text("name"@) && (forall|i: int|
        0 <= i < at ==> (#[trigger] entries[i]).0 != YamlTree::Text("name"@)) {
        yaml::first_entry_counts(entries, at, "name"@);
    }
    if entries[at].0 == YamlTree::Text("proxies"@) && (forall|i: int|
        0 <= i < at ==> (#[trigger] entries[i]).0 != YamlTree::Text("proxies"@)) {
        yaml::first_entry_counts(entries, at, "proxies"@);
    }
    if !yaml::has_key(entries, "name"@) {
        yaml::no_entry_without_key(entries, "name"@);
    }
    if !yaml::has_key(entries, "proxies"@) {
        yaml::no_entry_without_key(entries, "proxies"@);
    }
}

/// What a subscription is read as, from its text alone: YAML with proxies as it stands, YAML
/// with proxies in standard Base64, the links on its lines, or the links on the lines of what
/// is in Base64 of either alphabet. Line breaks and the white space around lines do not count
/// for what is packed.
pub proof fn subscription_read_as(body: Seq<char>)
    ensures
        ({
            let compact = compacted(text::lines(body));
            let plain = yaml::yaml_document(body);
            let bytes = encoding::standard_base64(compact);
            let packed = if bytes is Some && valid_utf8(bytes->0) {
                yaml::yaml_document(decode_utf8(bytes->0))
            } else {
                None
            };
            let links = linked_proxies(text::lines(body));
            let unpacked = encoding::base64_text(compact);
            let later = if unpacked is Ok {
                linked_proxies(text::lines(unpacked->Ok_0))
            } else {
                Ok(Seq::empty())
            };
            let read = subscription_document(body);
            if plain is Some && yaml::member(plain->0, "proxies"@) is Some {
                read == Ok::<YamlTree, Fault>(plain->0)
            } else if packed is Some && yaml::member(packed->0, "proxies"@) is Some {
                read == Ok::<YamlTree, Fault>(packed->0)
            } else if links is Err {
                read == Err::<YamlTree, Fault>(links->Err_0)
            } else if links->Ok_0.len() > 0 {
                read is Ok && proxy_items(read->Ok_0) == Some(links->Ok_0)
            } else if later is Err {
                read == Err::<YamlTree, Fault>(later->Err_0)
            } else if later->Ok_0.len() > 0 {
                read is Ok && proxy_items(read->Ok_0) == Some(later->Ok_0)
            } else {
                read == Err::<YamlTree, Fault>(Fault::Problem(Problem::UnknownFormat))
            }
        }),
{
    let compact = compacted(text::lines(body));
    links_are_listed(body);
    if encoding::base64_text(compact) is Ok {
        links_are_listed(encoding::base64_text(compact)->Ok_0);
    }
}

/// Lines are joined in their order, each without the white space around it.
pub proof fn compacted_in_parts(a: Seq<Seq<char>>, b: Seq<Seq<char>>, line: Seq<char>)
    ensures
        compacted(a + b) == compacted(a) + compacted(b),
        compacted(seq![line]) == text::trimmed(line),
        compacted(Seq::empty()).len() == 0,
    decreases b.len(),
{
    reveal_with_fuel(compacted, 2);
    assert(seq![line].drop_last() =~= Seq::<Seq<char>>::empty());
    assert(compacted(seq![line]) =~= text::trimmed(line));
    if b.len() == 0 {
        assert(a + b =~= a);
        assert(compacted(a) + compacted(b) =~= compacted(a));
    } else {
        compacted_in_parts(a, b.drop_last(), line);
        assert((a + b).drop_last() =~= a + b.drop_last());
        assert((a + b).last() == b.last());
        assert(compacted(a + b) =~= compacted(a) + compacted(b));
    }
}

/// A document that was read, and an error in place of one, is spoken of as itself.
pub proof fn readings_are_spoken_of(document: Yaml, error: SubscriptionError)
    ensures
        list_outcome(Ok(Some(document))) == Ok::<Option<YamlTree>, Fault>(Some(document@)),
        list_outcome(Ok(None)) == Ok::<Option<YamlTree>, Fault>(None),
        list_outcome(Err(error)) == Err::<Option<YamlTree>, Fault>(error@),
        document_outcome(Ok(document)) == Ok::<YamlTree, Fault>(document@),
        document_outcome(Err(error)) == Err::<YamlTree, Fault>(error@),
{
}

} // verus!
