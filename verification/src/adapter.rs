//! k6 scripts as an input: how one is recognised, and the scenario that it is read
//! into where it is not run by the driver.

use crate::encoding;
use crate::json;
use crate::json::Json;
use crate::paths;
use crate::scenario;
use crate::scenario::{Scenario, ScenarioInfo, ScenarioItem};
use crate::string_map;
use crate::string_map::StringMap;
use crate::text;
use vstd::prelude::*;
use vstd::string::*;
use vstd::utf8::*;

verus! {

/// Reads k6 scripts.
#[derive(Debug, Clone, Copy)]
pub struct K6ScriptAdapter;

/// Runs k6 scripts.
#[derive(Debug, Clone, Copy)]
pub struct K6Driver;

// ── detection ──

/// A document is a Postman collection: its schema, under `info`, is that of one.
pub open spec fn is_collection(doc: Option<json::JsonView>) -> bool {
    match doc {
        Some(d) => match json::member(d, "info"@) {
            Some(info) => match json::text_member(info, "schema"@) {
                Some(schema) => text::contains(schema, "getpostman.com"@) && text::contains(
                    schema,
                    "collection"@,
                ),
                None => false,
            },
            None => false,
        },
        None => false,
    }
}

/// A text has something of a k6 script: a default export, an import of a k6
/// module, or a call that scripts make.
pub open spec fn looks_like_k6(s: Seq<char>) -> bool {
    ||| text::contains(s, "export default"@)
    ||| text::contains(s, "from \"k6/"@)
    ||| text::contains(s, "from 'k6/"@)
    ||| text::contains(s, "http.get"@)
    ||| text::contains(s, "http.post"@)
    ||| text::contains(s, "check("@)
    ||| text::contains(s, "group("@)
}

/// Bytes are a k6 script: text that looks like one and is no Postman collection.
pub open spec fn is_k6_script(bytes: Seq<u8>) -> bool {
    &&& valid_utf8(bytes)
    &&& !is_collection(json::json_document(decode_utf8(bytes)))
    &&& looks_like_k6(decode_utf8(bytes))
}

/// Whether a document is a Postman collection.
pub fn is_collection_document(doc: Option<&Json>) -> (r: bool)
    ensures
        r == is_collection(json::opt_json(doc)),
{
    if let Some(d) = doc {
        if let Some(info) = d.get("info") {
            if let Some(schema) = info.text_of("schema") {
                return text::has(schema, "getpostman.com") && text::has(schema, "collection");
            }
        }
    }
    false
}

/// Whether a text is a Postman collection. Only its structure counts, not the
/// words in it.
pub fn is_postman_collection(s: &str) -> (r: bool)
    ensures
        r == is_collection(json::json_document(s@)),
{
    match Json::parse(s) {
        Some(doc) => is_collection_document(Some(&doc)),
        None => is_collection_document(None),
    }
}

/// Whether a text has something of a k6 script.
pub fn has_k6_pattern(s: &str) -> (r: bool)
    ensures
        r == looks_like_k6(s@),
{
    text::has(s, "export default") || text::has(s, "from \"k6/") || text::has(s, "from 'k6/")
        || text::has(s, "http.get") || text::has(s, "http.post") || text::has(s, "check(")
        || text::has(s, "group(")
}

fn detect_k6(bytes: &[u8]) -> (r: bool)
    ensures
        r == is_k6_script(bytes@),
{
    match encoding::utf8_text(bytes) {
        Some(s) => !is_postman_collection(s) && has_k6_pattern(s),
        None => false,
    }
}

// ── scenarios ──

/// A script as a function that calls itself.
pub open spec fn wrapped(code: Seq<char>) -> Seq<char> {
    "(function() {\n"@ + text::join(
        text::lines(code).map_values(|l: Seq<char>| "    "@ + l),
        "\n"@,
    ) + "    })();"@
}

/// The scenario of a script: one item, which holds the script.
pub open spec fn script_scenario(code: Seq<char>, name: Seq<char>) -> scenario::ScenarioView {
    scenario::ScenarioView {
        info: scenario::InfoView {
            name,
            description: Some("k6 script: "@ + name),
            schema: None,
        },
        items: seq![scenario::script_item(name, wrapped(code))],
        variables: Map::empty(),
        conversion_notes: Seq::empty(),
    }
}

fn wrap(code: &str) -> (r: String)
    ensures
        r@ == wrapped(code@),
{
    let lines = text::lines_of(code);
    let ghost want = text::lines(code@).map_values(|l: Seq<char>| "    "@ + l);
    let mut out: Vec<String> = Vec::new();
    let mut i: usize = 0;
    assert(text::views(out@) =~= want.take(0));
    while i < lines.len()
        invariant
            i <= lines@.len(),
            text::views(lines@) == text::lines(code@),
            want == text::lines(code@).map_values(|l: Seq<char>| "    "@ + l),
            text::views(out@) == want.take(i as int),
        decreases lines@.len() - i,
    {
        let line = text::cat("    ", lines[i].as_str());
        let ghost before = out@;
        out.push(line);
        proof {
            assert(text::views(lines@)[i as int] == lines@[i as int]@);
            assert(text::views(out@) =~= text::views(before).push(line@));
            assert(want.take(i + 1) =~= want.take(i as int).push(want[i as int]));
        }
        i += 1;
    }
    assert(want.take(lines@.len() as int) =~= want);
    let body = text::joined(&out, "\n");
    let mut r = text::cat("(function() {\n", body.as_str());
    r.append("    })();");
    r
}

/// The scenario of a script.
pub fn build_scenario_from_source(code: &str, name: &str) -> (r: Scenario)
    ensures
        r@ == script_scenario(code@, name@),
{
    let mut items: Vec<ScenarioItem> = Vec::new();
    items.push(ScenarioItem::of_script(name.to_owned(), wrap(code)));
    let variables: StringMap<String> = StringMap::new();
    let r = Scenario {
        info: ScenarioInfo {
            name: name.to_owned(),
            description: Some(text::cat("k6 script: ", name)),
            schema: None,
        },
        items,
        variables,
        conversion_notes: Vec::new(),
    };
    assert(r@.items =~= seq![scenario::script_item(name@, wrapped(code@))]);
    assert(r@.variables =~= Map::empty());
    assert(r@.conversion_notes =~= Seq::empty());
    r
}

/// The name of the script in a file.
pub open spec fn script_name(path: Seq<char>) -> Seq<char> {
    match paths::file_stem(path) {
        Some(stem) => stem,
        None => "script"@,
    }
}

/// The file of a script; one that is not known counts as `script.js`.
pub open spec fn script_path(path: Option<Seq<char>>) -> Seq<char> {
    match path {
        Some(p) => p,
        None => "script.js"@,
    }
}

impl K6ScriptAdapter {
    pub fn id(&self) -> (r: &str)
        ensures
            r@ == "k6"@,
    {
        "k6"
    }

    /// Whether bytes are a k6 script.
    pub fn detect(&self, bytes: &[u8]) -> (r: bool)
        ensures
            r == is_k6_script(bytes@),
    {
        detect_k6(bytes)
    }

    /// Reads a script that is plain JavaScript.
    pub fn parse(&self, bytes: &[u8]) -> (r: Result<Scenario, String>)
        ensures
            match r {
                Ok(s) => valid_utf8(bytes@) && s@ == script_scenario(
                    decode_utf8(bytes@),
                    "script"@,
                ),
                Err(message) => !valid_utf8(bytes@) && message@ == "k6 script is not valid UTF-8"@,
            },
    {
        match encoding::utf8_text(bytes) {
            Some(source) => Ok(build_scenario_from_source(source, "script")),
            None => Err("k6 script is not valid UTF-8".to_owned()),
        }
    }

    /// The file that is to be turned into JavaScript.
    pub fn source_path(&self, path: Option<&str>) -> (r: String)
        ensures
            r@ == script_path(json::opt_view(path)),
    {
        match path {
            Some(p) => p.to_owned(),
            None => "script.js".to_owned(),
        }
    }

    /// Reads a script in a file, given the JavaScript that the file was turned
    /// into, or why it was not.
    pub fn parse_with_path(
        &self,
        bytes: &[u8],
        path: Option<&str>,
        transpiled: Result<String, String>,
    ) -> (r: Result<Scenario, String>)
        ensures
            match r {
                Ok(s) => valid_utf8(bytes@) && transpiled is Ok && s@ == script_scenario(
                    transpiled->Ok_0@,
                    script_name(script_path(json::opt_view(path))),
                ),
                Err(message) => if !valid_utf8(bytes@) {
                    message@ == "k6 script is not valid UTF-8"@
                } else {
                    transpiled is Err && message@ == "k6 script transpilation failed: "@
                        + transpiled->Err_0@
                },
            },
    {
        if encoding::utf8_text(bytes).is_none() {
            return Err("k6 script is not valid UTF-8".to_owned());
        }
        let path = self.source_path(path);
        let name = match paths::file_stem_of(path.as_str()) {
            Some(stem) => stem,
            None => "script".to_owned(),
        };
        match transpiled {
            Ok(code) => Ok(build_scenario_from_source(code.as_str(), name.as_str())),
            Err(e) => Err(text::cat("k6 script transpilation failed: ", e.as_str())),
        }
    }
}

impl K6Driver {
    pub fn id(&self) -> (r: &str)
        ensures
            r@ == "k6"@,
    {
        "k6"
    }

    /// Whether bytes are a k6 script.
    pub fn detect(&self, bytes: &[u8]) -> (r: bool)
        ensures
            r == is_k6_script(bytes@),
    {
        detect_k6(bytes)
    }
}

// ── laws ──

/// A script is not taken for a Postman collection for the words in it: what is no
/// JSON document is none.
pub proof fn law_words_make_no_collection(bytes: Seq<u8>)
    requires
        valid_utf8(bytes),
        json::json_document(decode_utf8(bytes)) is None,
    ensures
        is_k6_script(bytes) == looks_like_k6(decode_utf8(bytes)),
{
}

/// A Postman collection is never taken for a script.
pub proof fn law_collections_are_declined(bytes: Seq<u8>)
    requires
        is_collection(json::json_document(decode_utf8(bytes))),
    ensures
        !is_k6_script(bytes),
{
}

/// What makes a text look like a script, each on its own: a default export, an
/// import of a k6 module in either quotes, and the calls of scripts.
pub proof fn law_signs_of_a_script(s: Seq<char>)
    ensures
        looks_like_k6(s) <==> text::contains(s, "export default"@) || text::contains(
            s,
            seq!['f', 'r', 'o', 'm', ' ', '"', 'k', '6', '/'],
        ) || text::contains(s, seq!['f', 'r', 'o', 'm', ' ', '\'', 'k', '6', '/'])
            || text::contains(s, "http.get"@) || text::contains(s, "http.post"@) || text::contains(
            s,
            "check("@,
        ) || text::contains(s, "group("@),
{
    reveal_strlit("from \"k6/");
    reveal_strlit("from 'k6/");
    assert("from \"k6/"@ =~= seq!['f', 'r', 'o', 'm', ' ', '"', 'k', '6', '/']);
    assert("from 'k6/"@ =~= seq!['f', 'r', 'o', 'm', ' ', '\'', 'k', '6', '/']);
}

/// Bytes that are not text are no script.
pub proof fn law_scripts_are_text(bytes: Seq<u8>)
    ensures
        is_k6_script(bytes) ==> valid_utf8(bytes) && looks_like_k6(decode_utf8(bytes)),
        valid_utf8(bytes) && looks_like_k6(decode_utf8(bytes)) && !is_collection(
            json::json_document(decode_utf8(bytes)),
        ) ==> is_k6_script(bytes),
{
}

/// A collection says so in the schema of its information: both who defined it and
/// that it is a collection.
pub proof fn law_what_is_a_collection(doc: json::JsonView)
    ensures
        is_collection(Some(doc)) <==> (json::member(doc, "info"@) matches Some(info) && (
        json::member(info, "schema"@) matches Some(schema) && (schema.node matches
            json::NodeView::Text(s) && text::contains(s, "getpostman.com"@) && text::contains(
            s,
            "collection"@,
        )))),
        !is_collection(None),
{
}

/// The scenario of a script: it has the name of the script and says that it is one;
/// it has one item, which has the same name, no request and no items, and holds the
/// script as a test.
pub proof fn law_scenario_of_a_script(code: Seq<char>, name: Seq<char>)
    ensures
        ({
            let s = script_scenario(code, name);
            &&& s.info.name == name
            &&& s.info.description == Some("k6 script: "@ + name)
            &&& s.info.schema is None
            &&& s.items.len() == 1
            &&& s.items[0].name == name
            &&& s.items[0].id is None
            &&& s.items[0].request is None
            &&& s.items[0].items.len() == 0
            &&& s.items[0].prerequest.len() == 0
            &&& s.items[0].test.len() == 1
            &&& s.items[0].test[0] == wrapped(code)
            &&& forall|k: Seq<char>| !#[trigger] s.variables.contains_key(k)
            &&& s.conversion_notes.len() == 0
        }),
{
}

/// A script of one line is wrapped into a function that calls itself, with the line
/// indented by four spaces.
pub proof fn law_one_line_is_wrapped(code: Seq<char>)
    requires
        code.len() > 0,
        !text::contains(code, seq!['\n']),
    ensures
        wrapped(code) == "(function() {\n"@ + ("    "@ + code) + "    })();"@,
{
    text::lemma_find_from(code, seq!['\n'], 0);
    if let Some(k) = text::find_from(code, seq!['\n'], 0) {
        assert(text::occurs_at(code, seq!['\n'], k));
    }
    assert(text::lines(code) =~= seq![code]);
    let indented = text::lines(code).map_values(|l: Seq<char>| "    "@ + l);
    assert(indented =~= seq!["    "@ + code]);
    assert(text::join(indented, "\n"@) == "    "@ + code);
}

/// A script is named after its file, without the extension; one whose file is not
/// known, or has no name, is called `script`.
pub proof fn law_names_of_scripts(path: Seq<char>)
    ensures
        paths::file_stem(path) matches Some(stem) ==> script_name(path) == stem,
        paths::file_stem(path) is None ==> script_name(path) == "script"@,
        script_path(Some(path)) == path,
        script_path(None) == "script.js"@,
{
}

} // verus!
