//! How the source of a script is read: which files its imports name, what is
//! TypeScript, which function an iteration calls, and what `open` and the summary
//! give.

use crate::encoding;
use crate::json;
use crate::json::Json;
use crate::paths;
use crate::string_map;
use crate::string_map::StringMap;
use crate::text;
use vstd::prelude::*;
use vstd::string::*;

verus! {

// ── TypeScript ──

/// An extension of TypeScript files, in any case.
pub open spec fn is_typescript(ext: Seq<char>) -> bool {
    let e = text::lower(ext);
    e == "ts"@ || e == "mts"@ || e == "tsx"@
}

/// The path has the extension of a TypeScript file.
pub open spec fn has_typescript_ext(path: Seq<char>) -> bool {
    match paths::extension(path) {
        Some(ext) => is_typescript(ext),
        None => false,
    }
}

/// Whether a path has the extension of a TypeScript file.
pub fn is_typescript_ext(path: &str) -> (r: bool)
    ensures
        r == has_typescript_ext(path@),
{
    match paths::extension_of(path) {
        Some(ext) => {
            let e = text::lowered(ext.as_str());
            text::same_text(e.as_str(), "ts") || text::same_text(e.as_str(), "mts")
                || text::same_text(e.as_str(), "tsx")
        },
        None => false,
    }
}

/// A source without a path that looks like TypeScript.
pub open spec fn looks_typed(source: Seq<char>) -> bool {
    text::contains(source, ": string"@) || text::contains(source, ": number"@) || text::contains(
        source,
        ": boolean"@,
    ) || text::contains(source, "interface "@)
}

/// The name under which a source is turned into JavaScript; none where it is
/// JavaScript. The path decides, and without one the look of the source.
pub open spec fn transpiled_as(source: Seq<char>, path: Option<Seq<char>>) -> Option<Seq<char>> {
    match path {
        Some(p) => if has_typescript_ext(p) {
            Some(p)
        } else {
            None
        },
        None => if looks_typed(source) {
            Some("script.js"@)
        } else {
            None
        },
    }
}

/// The name under which a source is turned into JavaScript; none where it is
/// JavaScript.
pub fn prepare_module_source(source: &str, path: Option<&str>) -> (r: Option<String>)
    ensures
        text::opt_text(r) == transpiled_as(source@, json::opt_view(path)),
{
    match path {
        Some(p) => if is_typescript_ext(p) {
            Some(p.to_owned())
        } else {
            None
        },
        None => if text::has(source, ": string") || text::has(source, ": number") || text::has(
            source,
            ": boolean",
        ) || text::has(source, "interface ") {
            Some("script.js".to_owned())
        } else {
            None
        },
    }
}

// ── imports ──

/// A specifier that names a file.
pub open spec fn names_a_file(name: Seq<char>) -> bool {
    text::starts_with(name, "./"@) || text::starts_with(name, "../"@) || paths::is_absolute(name)
}

/// The directory that the imports of a module are taken from: that of the module,
/// and that of the script for the script itself.
pub open spec fn import_dir(base: Seq<char>, script_dir: Option<Seq<char>>) -> Seq<char> {
    let dir = if base == "k6-script"@ || base.len() == 0 {
        script_dir
    } else {
        paths::parent(base)
    };
    match dir {
        Some(d) => d,
        None => Seq::empty(),
    }
}

/// The files that an import may mean, the most likely one first: the one that it
/// names, and, where it has no extension, the same with each known extension, and
/// the index of the directory.
pub open spec fn candidates(base: Seq<char>, name: Seq<char>, script_dir: Option<Seq<char>>) -> Seq<
    Seq<char>,
> {
    let file = paths::joined(import_dir(base, script_dir), name);
    if paths::extension(file) is Some {
        seq![file]
    } else {
        seq![
            file,
            paths::with_extension(file, "js"@),
            paths::with_extension(file, "mjs"@),
            paths::with_extension(file, "cjs"@),
            paths::with_extension(file, "ts"@),
            paths::with_extension(file, "mts"@),
            paths::with_extension(file, "tsx"@),
            paths::joined(file, "index.js"@),
            paths::joined(file, "index.ts"@),
            paths::joined(file, "index.mjs"@),
        ]
    }
}

/// The files that an import may mean; an error where it does not name a file.
pub fn module_candidates(base: &str, name: &str, script_dir: Option<&str>) -> (r: Result<
    Vec<String>,
    String,
>)
    ensures
        match r {
            Ok(files) => names_a_file(name@) && text::views(files@) == candidates(
                base@,
                name@,
                json::opt_view(script_dir),
            ),
            Err(message) => !names_a_file(name@) && message@
                == "bare module specifiers are not supported (k6 virtual modules are provided by the shim)"@,
        },
{
    if !(text::has_prefix(name, "./") || text::has_prefix(name, "../") || paths::absolute(name)) {
        return Err(
            "bare module specifiers are not supported (k6 virtual modules are provided by the shim)".to_owned(),
        );
    }
    let dir = if text::same_text(base, "k6-script") || text::empty(base) {
        match script_dir {
            Some(d) => d.to_owned(),
            None => String::new(),
        }
    } else {
        match paths::parent_of(base) {
            Some(d) => d,
            None => String::new(),
        }
    };
    assert(dir@ =~= import_dir(base@, json::opt_view(script_dir)));
    let file = paths::join(dir.as_str(), name);
    let mut files: Vec<String> = Vec::new();
    if paths::extension_of(file.as_str()).is_none() {
        let f = file.as_str();
        files.push(f.to_owned());
        files.push(paths::replace_extension(f, "js"));
        files.push(paths::replace_extension(f, "mjs"));
        files.push(paths::replace_extension(f, "cjs"));
        files.push(paths::replace_extension(f, "ts"));
        files.push(paths::replace_extension(f, "mts"));
        files.push(paths::replace_extension(f, "tsx"));
        files.push(paths::join(f, "index.js"));
        files.push(paths::join(f, "index.ts"));
        files.push(paths::join(f, "index.mjs"));
    } else {
        files.push(file);
    }
    assert(text::views(files@) =~= candidates(base@, name@, json::opt_view(script_dir)));
    Ok(files)
}

/// The first candidate that is a file on disk, given which ones are; an error
/// where none is.
pub fn pick_module(base: &str, name: &str, files: &Vec<String>, on_disk: &Vec<bool>) -> (r: Result<
    String,
    String,
>)
    requires
        files@.len() == on_disk@.len(),
    ensures
        match r {
            Ok(file) => exists|i: int|
                {
                    &&& 0 <= i < files@.len()
                    &&& #[trigger] on_disk@[i]
                    &&& file@ == files@[i]@
                    &&& forall|j: int| 0 <= j < i ==> !#[trigger] on_disk@[j]
                },
            Err(message) => (forall|j: int| 0 <= j < on_disk@.len() ==> !#[trigger] on_disk@[j])
                && message@ == "cannot resolve module '"@ + name@ + "' from '"@ + base@ + "'"@,
        },
{
    let mut i: usize = 0;
    while i < files.len()
        invariant
            i <= files@.len() == on_disk@.len(),
            forall|j: int| 0 <= j < i ==> !#[trigger] on_disk@[j],
        decreases files@.len() - i,
    {
        if on_disk[i] {
            return Ok(files[i].clone());
        }
        i += 1;
    }
    let mut message = text::cat("cannot resolve module '", name);
    message.append("' from '");
    message.append(base);
    message.append("'");
    Err(message)
}

// ── the entry point ──

/// The exported function that an iteration calls: the one that the scenario
/// names, and the default one where it names none.
pub open spec fn entry_point(exec_name: Option<Seq<char>>) -> Seq<char> {
    match exec_name {
        Some(e) => if e.len() > 0 {
            e
        } else {
            "default"@
        },
        None => "default"@,
    }
}

/// The exported function that an iteration calls.
pub fn entry_name(exec_name: Option<&str>) -> (r: String)
    ensures
        r@ == entry_point(json::opt_view(exec_name)),
{
    match exec_name {
        Some(e) => if text::empty(e) {
            "default".to_owned()
        } else {
            e.to_owned()
        },
        None => "default".to_owned(),
    }
}

/// The error where the entry point is not an exported function. A script without
/// a default one is no error: what it exports is looked at later.
pub open spec fn missing_entry(entry: Seq<char>, cause: Seq<char>) -> Option<Seq<char>> {
    if entry == "default"@ {
        None
    } else {
        Some(
            "k6 scenario exec '"@ + entry + "' is not an exported function ("@ + cause
                + ") — the named exec must be an `export function "@ + entry
                + "(...)` in the script"@,
        )
    }
}

/// The error where the entry point is not an exported function.
pub fn missing_entry_error(entry: &str, cause: &str) -> (r: Option<String>)
    ensures
        text::opt_text(r) == missing_entry(entry@, cause@),
{
    if text::same_text(entry, "default") {
        return None;
    }
    let mut m = text::cat("k6 scenario exec '", entry);
    m.append("' is not an exported function (");
    m.append(cause);
    m.append(") — the named exec must be an `export function ");
    m.append(entry);
    m.append("(...)` in the script");
    Some(m)
}

/// Whether a script can be run: an entry point must have been found.
pub fn require_entry(found: bool) -> (r: Result<(), String>)
    ensures
        match r {
            Ok(_) => found,
            Err(m) => !found && m@
                == "k6 script did not define a default export function — expected `export default function() { ... }` or `export function handleSummary() { ... }`"@,
        },
{
    if found {
        Ok(())
    } else {
        Err(
            "k6 script did not define a default export function — expected `export default function() { ... }` or `export function handleSummary() { ... }`".to_owned(),
        )
    }
}

/// The error where the options that a script declares cannot be read.
pub open spec fn bad_options(cause: Seq<char>) -> Seq<char> {
    "k6 script declares `options` but they failed to parse: "@ + cause
        + " (k6 would abort — fix the type mismatch, e.g. `stages: [{duration: 60}]` needs a string duration like \"60s\")"@
}

/// The error where the options that a script declares cannot be read.
pub fn options_error(cause: &str) -> (r: String)
    ensures
        r@ == bad_options(cause@),
{
    let mut m = text::cat("k6 script declares `options` but they failed to parse: ", cause);
    m.append(
        " (k6 would abort — fix the type mismatch, e.g. `stages: [{duration: 60}]` needs a string duration like \"60s\")",
    );
    m
}

// ── files ──

/// The file that a script opens, from the directory of the script.
pub open spec fn opened_path(script_dir: Option<Seq<char>>, path: Seq<char>) -> Seq<char> {
    match script_dir {
        Some(dir) => paths::joined(dir, path),
        None => path,
    }
}

/// The file that a script opens.
pub fn open_path(script_dir: Option<&str>, path: &str) -> (r: String)
    ensures
        r@ == opened_path(json::opt_view(script_dir), path@),
{
    match script_dir {
        Some(dir) => paths::join(dir, path),
        None => path.to_owned(),
    }
}

/// What a script gets of a file: base64 in binary mode, and its text in any other.
pub open spec fn opened_content(mode: Seq<char>, bytes: Seq<u8>) -> Seq<char> {
    if mode == "b"@ {
        encoding::base64_text(bytes)
    } else {
        encoding::text_of(bytes)
    }
}

/// What a script gets of a file. In binary mode it stands for the bytes of the
/// file, and so does a request body made of it.
pub fn open_content(mode: &str, bytes: &[u8]) -> (r: String)
    ensures
        r@ == opened_content(mode@, bytes@),
        mode@ == "b"@ ==> encoding::base64_bytes(r@) == Some(bytes@),
{
    if text::same_text(mode, "b") {
        encoding::to_base64(bytes)
    } else {
        encoding::from_lossy(bytes)
    }
}

/// The error where a file cannot be read.
pub fn open_error(path: &str, cause: &str) -> (r: String)
    ensures
        r@ == "open('"@ + path@ + "'): "@ + cause@,
{
    let mut m = text::cat("open('", path);
    m.append("'): ");
    m.append(cause);
    m
}

// ── the summary ──

/// The texts of the entries of an object. A value that is no string is empty.
pub open spec fn entry_texts(entries: Seq<(Seq<char>, json::JsonView)>) -> Map<Seq<char>, Seq<char>>
    decreases entries.len(),
{
    if entries.len() == 0 {
        Map::empty()
    } else {
        entry_texts(entries.drop_last()).insert(
            entries.last().0,
            match json::as_text(Some(entries.last().1)) {
                Some(s) => s,
                None => Seq::empty(),
            },
        )
    }
}

/// The files that a summary writes, by their names. A string goes to the standard
/// output.
pub open spec fn summary_files(doc: Option<json::JsonView>) -> Map<Seq<char>, Seq<char>> {
    if let Some(s) = json::as_text(doc) {
        Map::empty().insert("stdout"@, s)
    } else if let Some(entries) = json::as_object(doc) {
        entry_texts(entries)
    } else {
        Map::empty()
    }
}

/// The files that a summary writes, given the document that it returned.
pub fn files_of_summary(doc: Option<&Json>) -> (r: StringMap<String>)
    ensures
        string_map::texts(r@) == summary_files(json::opt_json(doc)),
{
    let mut r: StringMap<String> = StringMap::new();
    assert(string_map::texts(r@) =~= Map::empty());
    if let Some(doc) = doc {
        if let Some(s) = doc.as_str() {
            r.set("stdout", s);
        } else if let Some(entries) = doc.as_object() {
            let ghost all = json::entries_view(entries@);
            let mut i: usize = 0;
            while i < entries.len()
                invariant
                    i <= entries@.len(),
                    all == json::entries_view(entries@),
                    string_map::texts(r@) == entry_texts(all.take(i as int)),
                decreases entries@.len() - i,
            {
                proof {
                    reveal_strlit("");
                    assert(""@ =~= Seq::empty());
                    assert(all.take(i + 1).drop_last() =~= all.take(i as int));
                }
                let value = match entries[i].1.as_str() {
                    Some(s) => s,
                    None => "",
                };
                r.set(entries[i].0.as_str(), value);
                i += 1;
            }
            assert(all.take(entries@.len() as int) =~= all);
        }
    }
    r
}

/// The files that a summary writes, given the JSON text that it returned.
pub fn handle_summary(json: &str) -> (r: StringMap<String>)
    ensures
        string_map::texts(r@) == summary_files(json::json_document(json@)),
{
    match Json::parse(json) {
        Some(doc) => files_of_summary(Some(&doc)),
        None => files_of_summary(None),
    }
}

// ── laws ──

/// An import with an extension means one file and no other.
pub proof fn law_extension_settles_the_file(
    base: Seq<char>,
    name: Seq<char>,
    script_dir: Option<Seq<char>>,
)
    requires
        paths::extension(paths::joined(import_dir(base, script_dir), name)) is Some,
    ensures
        candidates(base, name, script_dir) == seq![
            paths::joined(import_dir(base, script_dir), name),
        ],
{
}

/// An absolute path means the same file from everywhere.
pub proof fn law_absolute_paths_do_not_move(
    base: Seq<char>,
    name: Seq<char>,
    script_dir: Option<Seq<char>>,
)
    requires
        paths::is_absolute(name),
    ensures
        candidates(base, name, script_dir)[0] == name,
        opened_path(script_dir, name) == name,
{
}

/// A TypeScript file is one whose extension is `ts`, `mts` or `tsx`, in any case. A
/// file without an extension is none.
pub proof fn law_typescript_files(path: Seq<char>)
    ensures
        paths::extension(path) is None ==> !has_typescript_ext(path),
        paths::extension(path) matches Some(ext) ==> (has_typescript_ext(path) <==> text::lower(ext)
            == "ts"@ || text::lower(ext) == "mts"@ || text::lower(ext) == "tsx"@),
{
}

/// A source in a file is turned into JavaScript under the path of the file, exactly
/// where that is a TypeScript file. One without a file is where it looks typed.
pub proof fn law_what_is_transpiled(source: Seq<char>, path: Seq<char>)
    ensures
        has_typescript_ext(path) ==> transpiled_as(source, Some(path)) == Some(path),
        !has_typescript_ext(path) ==> transpiled_as(source, Some(path)) is None,
        transpiled_as(source, None) is Some <==> text::contains(source, ": string"@)
            || text::contains(source, ": number"@) || text::contains(source, ": boolean"@)
            || text::contains(source, "interface "@),
        transpiled_as(source, None) is Some ==> transpiled_as(source, None)->0 == "script.js"@,
{
}

/// An import is taken from the directory of the module that it stands in, and one
/// of the script itself from the directory of the script.
pub proof fn law_imports_are_taken_from_their_module(
    base: Seq<char>,
    name: Seq<char>,
    script_dir: Option<Seq<char>>,
)
    ensures
        base == "k6-script"@ && script_dir is Some ==> candidates(base, name, script_dir)[0]
            == paths::joined(script_dir->0, name),
        base.len() == 0 && script_dir is Some ==> candidates(base, name, script_dir)[0]
            == paths::joined(script_dir->0, name),
        base != "k6-script"@ && base.len() > 0 && paths::parent(base) is Some ==> candidates(
            base,
            name,
            script_dir,
        )[0] == paths::joined(paths::parent(base)->0, name),
        (base == "k6-script"@ || base.len() == 0) && script_dir is None ==> candidates(
            base,
            name,
            script_dir,
        )[0] == paths::joined(Seq::empty(), name),
{
}

/// An import without an extension means the file itself before the same with an
/// extension, JavaScript before TypeScript, and a file before the index of a
/// directory.
pub proof fn law_candidates_come_in_order(
    base: Seq<char>,
    name: Seq<char>,
    script_dir: Option<Seq<char>>,
)
    requires
        paths::extension(paths::joined(import_dir(base, script_dir), name)) is None,
    ensures
        ({
            let c = candidates(base, name, script_dir);
            let file = c[0];
            &&& c.len() == 10
            &&& c[1] == paths::with_extension(file, "js"@)
            &&& c[2] == paths::with_extension(file, "mjs"@)
            &&& c[3] == paths::with_extension(file, "cjs"@)
            &&& c[4] == paths::with_extension(file, "ts"@)
            &&& c[5] == paths::with_extension(file, "mts"@)
            &&& c[6] == paths::with_extension(file, "tsx"@)
            &&& c[7] == paths::joined(file, "index.js"@)
            &&& c[8] == paths::joined(file, "index.ts"@)
            &&& c[9] == paths::joined(file, "index.mjs"@)
        }),
{
}

/// An import names a file where it begins with a point or two and a separator, or
/// with a separator.
pub proof fn law_which_imports_name_files(name: Seq<char>)
    ensures
        names_a_file(name) <==> (name.len() > 0 && name[0] == '/') || (name.len() > 1 && name[0]
            == '.' && name[1] == '/') || (name.len() > 2 && name[0] == '.' && name[1] == '.'
            && name[2] == '/'),
{
    reveal_strlit("./");
    reveal_strlit("../");
    assert("./"@ =~= seq!['.', '/']);
    assert("../"@ =~= seq!['.', '.', '/']);
    assert(seq!['.', '/'][0] == '.' && seq!['.', '/'][1] == '/');
    assert(seq!['.', '.', '/'][0] == '.' && seq!['.', '.', '/'][1] == '.' && seq!['.', '.', '/'][2]
        == '/');
    if name.len() >= 2 {
        let two = name.subrange(0, 2);
        assert(two[0] == name[0] && two[1] == name[1]);
        if name[0] == '.' && name[1] == '/' {
            assert(two =~= seq!['.', '/']);
        }
    }
    if name.len() >= 3 {
        let three = name.subrange(0, 3);
        assert(three[0] == name[0] && three[1] == name[1] && three[2] == name[2]);
        if name[0] == '.' && name[1] == '.' && name[2] == '/' {
            assert(three =~= seq!['.', '.', '/']);
        }
    }
}

/// An iteration calls the function that the scenario names, and the default one
/// where it names none or an empty name. Only a named one that is missing is an
/// error, which names it twice and says why.
pub proof fn law_entry_points(exec_name: Seq<char>, cause: Seq<char>)
    ensures
        exec_name.len() > 0 ==> entry_point(Some(exec_name)) == exec_name,
        exec_name.len() == 0 ==> entry_point(Some(exec_name)) == "default"@,
        entry_point(None) == "default"@,
        missing_entry("default"@, cause) is None,
        exec_name != "default"@ ==> missing_entry(exec_name, cause) == Some(
            "k6 scenario exec '"@ + exec_name + "' is not an exported function ("@ + cause
                + ") — the named exec must be an `export function "@ + exec_name
                + "(...)` in the script"@,
        ),
{
}

/// A file is opened from the directory of the script, where that is known.
pub proof fn law_files_are_opened_beside_the_script(dir: Seq<char>, path: Seq<char>)
    ensures
        opened_path(Some(dir), path) == paths::joined(dir, path),
        opened_path(None, path) == path,
{
}

/// A file is read as its bytes in binary mode only, and as its text in any other.
pub proof fn law_modes_of_opening(mode: Seq<char>, bytes: Seq<u8>)
    ensures
        mode == "b"@ ==> opened_content(mode, bytes) == encoding::base64_text(bytes),
        mode != "b"@ && vstd::utf8::valid_utf8(bytes) ==> opened_content(mode, bytes)
            == vstd::utf8::decode_utf8(bytes),
{
}

/// A summary that is a string goes to the standard output, and nowhere else. What
/// is neither a string nor an object writes nothing.
pub proof fn law_text_summaries(doc: Option<json::JsonView>, name: Seq<char>)
    ensures
        doc matches Some(d) && (d.node is Text) ==> {
            &&& summary_files(doc).contains_key(name) <==> name == "stdout"@
            &&& summary_files(doc)["stdout"@] == doc->0.node->Text_0
        },
        doc is None || !(doc->0.node is Text || doc->0.node is Object) ==> !summary_files(
            doc,
        ).contains_key(name),
{
}

/// A summary that is an object writes one file for each key: what the last entry
/// with the key holds, and nothing where that is no string.
pub proof fn law_object_summaries(entries: Seq<(Seq<char>, json::JsonView)>, doc: json::JsonView, i: int)
    requires
        doc.node == json::NodeView::Object(entries),
        0 <= i < entries.len(),
        forall|j: int| i < j < entries.len() ==> (#[trigger] entries[j]).0 != entries[i].0,
    ensures
        summary_files(Some(doc)).contains_key(entries[i].0),
        entries[i].1.node matches json::NodeView::Text(s) ==> summary_files(
            Some(doc),
        )[entries[i].0] == s,
        !(entries[i].1.node is Text) ==> summary_files(Some(doc))[entries[i].0].len() == 0,
{
    lemma_last_entry_is_written(entries, i);
}

proof fn lemma_last_entry_is_written(entries: Seq<(Seq<char>, json::JsonView)>, i: int)
    requires
        0 <= i < entries.len(),
        forall|j: int| i < j < entries.len() ==> (#[trigger] entries[j]).0 != entries[i].0,
    ensures
        entry_texts(entries).contains_key(entries[i].0),
        entry_texts(entries)[entries[i].0] == (match json::as_text(Some(entries[i].1)) {
            Some(s) => s,
            None => Seq::empty(),
        }),
    decreases entries.len(),
{
    if i < entries.len() - 1 {
        let front = entries.drop_last();
        assert(front[i] == entries[i]);
        assert forall|j: int| i < j < front.len() implies (#[trigger] front[j]).0 != front[i].0 by {
            assert(front[j] == entries[j]);
        }
        lemma_last_entry_is_written(front, i);
        assert(entries[entries.len() - 1].0 != entries[i].0);
    }
}

/// A summary that is an object writes no file that it does not name.
pub proof fn law_summaries_write_what_they_name(
    entries: Seq<(Seq<char>, json::JsonView)>,
    name: Seq<char>,
)
    requires
        forall|i: int| 0 <= i < entries.len() ==> (#[trigger] entries[i]).0 != name,
    ensures
        !entry_texts(entries).contains_key(name),
    decreases entries.len(),
{
    if entries.len() > 0 {
        let front = entries.drop_last();
        assert forall|i: int| 0 <= i < front.len() implies (#[trigger] front[i]).0 != name by {
            assert(front[i] == entries[i]);
        }
        law_summaries_write_what_they_name(front, name);
        assert(entries[entries.len() - 1].0 != name);
    }
}

/// The error of options that cannot be read holds the cause, between what failed and
/// what to do about it.
pub proof fn law_bad_options_tell_the_cause(cause: Seq<char>)
    ensures
        text::starts_with(
            bad_options(cause),
            "k6 script declares `options` but they failed to parse: "@ + cause,
        ),
        text::ends_with(
            bad_options(cause),
            cause
                + " (k6 would abort — fix the type mismatch, e.g. `stages: [{duration: 60}]` needs a string duration like \"60s\")"@,
        ),
{
    let head = "k6 script declares `options` but they failed to parse: "@;
    let tail =
        " (k6 would abort — fix the type mismatch, e.g. `stages: [{duration: 60}]` needs a string duration like \"60s\")"@;
    text::law_parts_of_a_text(head + cause, tail, cause);
    text::law_parts_of_a_text(head, cause + tail, cause);
    assert(head + cause + tail =~= head + (cause + tail));
}

} // verus!
