use vstd::prelude::*;

use crate::config::Workspace;
use vstd::utf8::{encode_utf8, encode_utf8_valid_utf8, is_ascii_chars, is_ascii_chars_encode_utf8, valid_utf8};

verus! {

#[verifier::external_type_specification]
#[verifier::external_body]
pub struct ExPlistError(::plist::Error);

/// Key/value pairs as pairs of character sequences.
pub open spec fn pairs_view(pairs: Seq<(String, String)>) -> Seq<(Seq<char>, Seq<char>)> {
    pairs.map_values(|p: (String, String)| (p.0@, p.1@))
}

/// The text that opens every XML property list.
pub open spec fn plist_prologue() -> Seq<char> {
    "<?xml version=\"1.0\" encoding=\"UTF-8\"?>\n<!DOCTYPE plist PUBLIC \"-//Apple//DTD PLIST 1.0//EN\" \"http://www.apple.com/DTDs/PropertyList-1.0.dtd\">\n<plist version=\"1.0\">\n"@
}

/// The text that closes every XML property list.
pub open spec fn plist_epilogue() -> Seq<char> {
    "\n</plist>"@
}

/// The XML text for the character `c`: its entity where XML text escapes it.
pub open spec fn xml_escape_char(c: char) -> Seq<char> {
    if c == '<' {
        "&lt;"@
    } else if c == '>' {
        "&gt;"@
    } else if c == '&' {
        "&amp;"@
    } else if c == '\'' {
        "&apos;"@
    } else if c == '"' {
        "&quot;"@
    } else if c == '\r' {
        "&#13;"@
    } else {
        seq![c]
    }
}

/// `s` as XML text: `<`, `>`, `&`, `'`, `"` and CR replaced by their entities.
pub open spec fn xml_escape(s: Seq<char>) -> Seq<char>
    decreases s.len(),
{
    if s.len() == 0 {
        seq![]
    } else {
        xml_escape_char(s[0]) + xml_escape(s.drop_first())
    }
}

/// `s` holds no character that XML text escapes (`<`, `>`, `&`, `'`, `"`, CR).
pub open spec fn is_xml_plain(s: Seq<char>) -> bool {
    forall|i: int|
        0 <= i < s.len() ==> {
            let c = #[trigger] s[i];
            c != '<' && c != '>' && c != '&' && c != '\'' && c != '"' && c != '\r'
        }
}

/// `d` with the key `k` bound to `v`: in place where `d` has the key, else at the end.
pub open spec fn dict_insert(d: Seq<(Seq<char>, Seq<char>)>, k: Seq<char>, v: Seq<char>) -> Seq<
    (Seq<char>, Seq<char>),
> {
    if exists|j: int| 0 <= j < d.len() && #[trigger] d[j].0 == k {
        let j = choose|j: int| 0 <= j < d.len() && #[trigger] d[j].0 == k;
        d.update(j, (k, v))
    } else {
        d.push((k, v))
    }
}

/// The dictionary that `entries` make, inserted in order: each key at its
/// first position, with its last value.
pub open spec fn plist_dictionary(entries: Seq<(Seq<char>, Seq<char>)>) -> Seq<
    (Seq<char>, Seq<char>),
>
    decreases entries.len(),
{
    if entries.len() == 0 {
        seq![]
    } else {
        dict_insert(plist_dictionary(entries.drop_last()), entries.last().0, entries.last().1)
    }
}

/// The `<key>` and `<string>` elements of the entries of `d`, each on a line
/// of its own indented by a tab.
pub open spec fn plist_items(d: Seq<(Seq<char>, Seq<char>)>) -> Seq<char>
    decreases d.len(),
{
    if d.len() == 0 {
        seq![]
    } else {
        plist_items(d.drop_last()) + "\n\t<key>"@ + xml_escape(d.last().0) + "</key>\n\t<string>"@
            + xml_escape(d.last().1) + "</string>"@
    }
}

/// The XML property list of a dictionary of strings made from `entries`.
pub open spec fn plist_xml_text(entries: Seq<(Seq<char>, Seq<char>)>) -> Seq<char> {
    let d = plist_dictionary(entries);
    plist_prologue() + (if d.len() == 0 {
        "<dict/>"@
    } else {
        "<dict>"@ + plist_items(d) + "\n</dict>"@
    }) + plist_epilogue()
}

/// Writes `entries` as a dictionary of strings, in order, in the XML
/// property-list format, by `plist::Value::to_writer_xml`.
///
/// Claims that writing into a `Vec<u8>` succeeds and that the bytes are the
/// UTF-8 encoding of `plist_xml_text(entries)`: the XML prologue, the DOCTYPE and
/// `<plist version="1.0">`, the dictionary (`<dict/>` when empty, else each key
/// at its first position with its last value as tab-indented `<key>` and
/// `<string>` lines with XML escapes), then `\n</plist>`.
#[verifier::external_body]
fn write_string_dictionary_xml(entries: &Vec<(String, String)>) -> (r: Result<
    Vec<u8>,
    ::plist::Error,
>)
    ensures
        r is Ok,
        r matches Ok(bytes) ==> bytes@ == encode_utf8(plist_xml_text(pairs_view(entries@))),
{
    let dict: ::plist::Dictionary = entries.iter().map(
        |(k, v)| (k.clone(), ::plist::Value::String(v.clone())),
    ).collect();
    let mut buf: Vec<u8> = Vec::new();
    ::plist::Value::Dictionary(dict).to_writer_xml(&mut buf).map(|()| buf)
}

/// Errors in generating an `Info.plist`.
#[derive(Debug)]
pub enum InfoPlistError {
    /// The property list could not be written.
    Serialization,
}

/// The entries of the `Info.plist` of the workspace `ws`, in key order.
pub open spec fn info_plist_entries_spec(bundle_id_prefix: Seq<char>, ws: Workspace) -> Seq<
    (Seq<char>, Seq<char>),
> {
    seq![
        ("CFBundleExecutable"@, "ghostty-"@ + ws.name@),
        ("CFBundleIdentifier"@, bundle_id_prefix + ".ghostty-"@ + ws.name@),
        ("CFBundleName"@, "Ghostty "@ + ws.display_name@),
        ("CFBundlePackageType"@, "APPL"@),
        ("CFBundleVersion"@, "1.0"@),
    ]
}

/// `bytes`, with a newline added unless it already ends with one.
pub open spec fn ensure_trailing_newline(bytes: Seq<u8>) -> Seq<u8> {
    if bytes.len() > 0 && bytes.last() == 10u8 {
        bytes
    } else {
        bytes.push(10u8)
    }
}

/// The generated property list always ends with a newline, and adding the
/// newline a second time changes nothing.
pub proof fn lemma_trailing_newline(bytes: Seq<u8>)
    ensures
        ensure_trailing_newline(bytes).len() > 0,
        ensure_trailing_newline(bytes).last() == 10u8,
        ensure_trailing_newline(ensure_trailing_newline(bytes)) == ensure_trailing_newline(bytes),
{
}

fn pair(k: &str, v: String) -> (p: (String, String))
    ensures
        p.0@ == k@,
        p.1@ == v@,
{
    (String::from_str(k), v)
}

/// The entries of the `Info.plist` of the workspace `ws`: its executable,
/// bundle identifier, display name, package type and version, in key order.
pub fn info_plist_entries(bundle_id_prefix: &str, ws: &Workspace) -> (r: Vec<(String, String)>)
    ensures
        pairs_view(r@) == info_plist_entries_spec(bundle_id_prefix@, *ws),
{
    let mut executable = String::from_str("ghostty-");
    executable.append(ws.name.as_str());
    let mut identifier = String::from_str(bundle_id_prefix);
    identifier.append(".ghostty-");
    identifier.append(ws.name.as_str());
    let mut name = String::from_str("Ghostty ");
    name.append(ws.display_name.as_str());
    let mut r: Vec<(String, String)> = Vec::new();
    r.push(pair("CFBundleExecutable", executable));
    r.push(pair("CFBundleIdentifier", identifier));
    r.push(pair("CFBundleName", name));
    r.push(pair("CFBundlePackageType", String::from_str("APPL")));
    r.push(pair("CFBundleVersion", String::from_str("1.0")));
    assert(pairs_view(r@) =~= info_plist_entries_spec(bundle_id_prefix@, *ws));
    r
}

/// Ensures that `xml` ends with a newline, adding one where it does not.
pub fn with_trailing_newline(xml: Vec<u8>) -> (r: Vec<u8>)
    ensures
        r@ == ensure_trailing_newline(xml@),
{
    let mut xml = xml;
    let n = xml.len();
    if n == 0 || xml[n - 1] != 10u8 {
        xml.push(10u8);
    }
    xml
}

proof fn lemma_escape_plain(s: Seq<char>)
    requires
        is_xml_plain(s),
    ensures
        xml_escape(s) == s,
    decreases s.len(),
{
    if s.len() > 0 {
        let t = s.drop_first();
        assert(is_xml_plain(t)) by {
            assert forall|i: int| 0 <= i < t.len() implies {
                let c = #[trigger] t[i];
                c != '<' && c != '>' && c != '&' && c != '\'' && c != '"' && c != '\r'
            } by {
                assert(t[i] == s[i + 1]);
            }
        }
        lemma_escape_plain(t);
        let c = s[0];
        assert(c != '<' && c != '>' && c != '&' && c != '\'' && c != '"' && c != '\r');
        assert(s =~= seq![c] + t);
    }
}

proof fn lemma_dictionary_of_distinct_keys(entries: Seq<(Seq<char>, Seq<char>)>)
    requires
        forall|i: int, j: int| 0 <= i < j < entries.len() ==> entries[i].0 != entries[j].0,
    ensures
        plist_dictionary(entries) == entries,
    decreases entries.len(),
{
    if entries.len() > 0 {
        let d = entries.drop_last();
        lemma_dictionary_of_distinct_keys(d);
        let k = entries.last().0;
        assert forall|j: int| 0 <= j < d.len() implies #[trigger] d[j].0 != k by {
            assert(entries[j].0 != entries[entries.len() - 1].0);
        }
        assert(d.push(entries.last()) =~= entries);
    }
}

/// The text of the `Info.plist` lines of `entries`, for plain entries.
pub open spec fn plain_items(entries: Seq<(Seq<char>, Seq<char>)>) -> Seq<char>
    decreases entries.len(),
{
    if entries.len() == 0 {
        seq![]
    } else {
        plain_items(entries.drop_last()) + "\n\t<key>"@ + entries.last().0 + "</key>\n\t<string>"@
            + entries.last().1 + "</string>"@
    }
}

proof fn lemma_items_plain(d: Seq<(Seq<char>, Seq<char>)>)
    requires
        forall|i: int| 0 <= i < d.len() ==> is_xml_plain(#[trigger] d[i].0) && is_xml_plain(d[i].1),
    ensures
        plist_items(d) == plain_items(d),
    decreases d.len(),
{
    if d.len() > 0 {
        lemma_items_plain(d.drop_last());
        lemma_escape_plain(d.last().0);
        lemma_escape_plain(d.last().1);
    }
}

proof fn lemma_plain_concat(a: Seq<char>, b: Seq<char>)
    requires
        is_xml_plain(a),
        is_xml_plain(b),
    ensures
        is_xml_plain(a + b),
{
    assert forall|i: int| 0 <= i < (a + b).len() implies {
        let c = #[trigger] (a + b)[i];
        c != '<' && c != '>' && c != '&' && c != '\'' && c != '"' && c != '\r'
    } by {
        if i < a.len() {
            assert((a + b)[i] == a[i]);
        } else {
            assert((a + b)[i] == b[i - a.len()]);
        }
    }
}

/// Where the bundle prefix, the workspace name and the display name need no
/// XML escaping, the `Info.plist` is the prologue, then a dictionary of the five
/// entries in key order, written verbatim, then `</plist>`.
pub proof fn lemma_info_plist_text_plain(bundle_id_prefix: Seq<char>, ws: Workspace)
    requires
        is_xml_plain(bundle_id_prefix),
        is_xml_plain(ws.name@),
        is_xml_plain(ws.display_name@),
    ensures
        plist_xml_text(info_plist_entries_spec(bundle_id_prefix, ws)) == plist_prologue() + "<dict>"@
            + plain_items(info_plist_entries_spec(bundle_id_prefix, ws)) + "\n</dict>"@
            + plist_epilogue(),
{
    reveal_strlit("CFBundleExecutable");
    reveal_strlit("CFBundleIdentifier");
    reveal_strlit("CFBundleName");
    reveal_strlit("CFBundlePackageType");
    reveal_strlit("CFBundleVersion");
    reveal_strlit("ghostty-");
    reveal_strlit(".ghostty-");
    reveal_strlit("Ghostty ");
    reveal_strlit("APPL");
    reveal_strlit("1.0");
    let e = info_plist_entries_spec(bundle_id_prefix, ws);
    lemma_plain_concat("ghostty-"@, ws.name@);
    lemma_plain_concat(bundle_id_prefix, ".ghostty-"@);
    lemma_plain_concat(bundle_id_prefix + ".ghostty-"@, ws.name@);
    lemma_plain_concat("Ghostty "@, ws.display_name@);
    assert forall|i: int, j: int| 0 <= i < j < e.len() implies e[i].0 != e[j].0 by {
        assert(e[i].0[8] != e[j].0[8]);
    }
    lemma_dictionary_of_distinct_keys(e);
    assert forall|i: int| 0 <= i < e.len() implies is_xml_plain(#[trigger] e[i].0) && is_xml_plain(
        e[i].1,
    ) by {}
    lemma_items_plain(e);
}

proof fn lemma_encode_utf8_concat(a: Seq<char>, b: Seq<char>)
    ensures
        encode_utf8(a + b) == encode_utf8(a) + encode_utf8(b),
    decreases a.len(),
{
    if a.len() == 0 {
        assert(a + b =~= b);
        assert(encode_utf8(a) + encode_utf8(b) =~= encode_utf8(b));
    } else {
        lemma_encode_utf8_concat(a.drop_first(), b);
        assert((a + b).drop_first() =~= a.drop_first() + b);
        assert((a + b)[0] == a[0]);
    }
}

proof fn lemma_small_ascii_bytes()
    ensures
        encode_utf8("\n"@) == seq![10u8],
        encode_utf8(plist_epilogue()).len() > 0,
        encode_utf8(plist_epilogue()).last() == 62u8,
{
    reveal_strlit("\n");
    reveal_strlit("\n</plist>");
    let a = plist_epilogue();
    assert(is_ascii_chars("\n"@));
    assert(is_ascii_chars(a));
    is_ascii_chars_encode_utf8("\n"@);
    is_ascii_chars_encode_utf8(a);
    assert(encode_utf8("\n"@)[0] == 10u8);
    assert(encode_utf8("\n"@) =~= seq![10u8]);
    assert(encode_utf8(a)[8] == a[8] as u8);
}

/// Generates the `Info.plist` of the macOS `.app` bundle of the workspace `ws`,
/// whose bundle identifier is `<bundle_id_prefix>.ghostty-<name>`: valid UTF-8
/// XML text, the property list of its entries followed by a newline.
pub fn generate_info_plist(bundle_id_prefix: &str, ws: &Workspace) -> (r: Result<
    Vec<u8>,
    InfoPlistError,
>)
    ensures
        r is Ok,
        r matches Ok(bytes) ==> bytes@ == encode_utf8(
            plist_xml_text(info_plist_entries_spec(bundle_id_prefix@, *ws)) + "\n"@,
        ),
        r matches Ok(bytes) ==> valid_utf8(bytes@),
{
    let entries = info_plist_entries(bundle_id_prefix, ws);
    match write_string_dictionary_xml(&entries) {
        Ok(xml) => {
            proof {
                let text = plist_xml_text(pairs_view(entries@));
                let body = text.subrange(0, text.len() - plist_epilogue().len());
                assert(text =~= body + plist_epilogue());
                lemma_encode_utf8_concat(body, plist_epilogue());
                lemma_encode_utf8_concat(text, "\n"@);
                lemma_small_ascii_bytes();
                assert(xml@.last() == 62u8);
                encode_utf8_valid_utf8(text + "\n"@);
            }
            Ok(with_trailing_newline(xml))
        },
        Err(_) => Err(InfoPlistError::Serialization),
    }
}

} // verus!
