//! Scenarios: what an input is read into.

use crate::headers;
use crate::http;
use crate::http::Body;
use crate::string_map;
use crate::string_map::StringMap;
use crate::text;
use vstd::prelude::*;
use vstd::string::*;

verus! {

#[derive(Debug)]
pub struct ScenarioInfo {
    pub name: String,
    pub description: Option<String>,
    pub schema: Option<String>,
}

/// A request as it is saved. What it leaves open is the host's default.
#[derive(Debug)]
pub struct SavedRequest {
    pub url: String,
    pub method: String,
    pub headers: Vec<(String, String)>,
    pub query_params: StringMap<String>,
    pub body: Option<Body>,
}

#[verifier::ext_equal]
pub struct SavedView {
    pub url: Seq<char>,
    pub method: Seq<char>,
    pub headers: Seq<(Seq<char>, Seq<char>)>,
    pub query_params: Map<Seq<char>, Seq<char>>,
    pub body: Option<http::BodyView>,
}

impl View for SavedRequest {
    type V = SavedView;

    open spec fn view(&self) -> SavedView {
        SavedView {
            url: self.url@,
            method: self.method@,
            headers: headers::pair_views(self.headers@),
            query_params: string_map::texts(self.query_params@),
            body: http::opt_body(self.body),
        }
    }
}

/// A request, a script, or a folder of other items.
#[derive(Debug)]
pub struct ScenarioItem {
    pub id: Option<String>,
    pub name: String,
    pub request: Option<SavedRequest>,
    pub prerequest: Vec<String>,
    pub test: Vec<String>,
    pub items: Vec<ScenarioItem>,
}

#[derive(Debug)]
pub struct Scenario {
    pub info: ScenarioInfo,
    pub items: Vec<ScenarioItem>,
    pub variables: StringMap<String>,
    /// What did not come across.
    pub conversion_notes: Vec<String>,
}

pub struct InfoView {
    pub name: Seq<char>,
    pub description: Option<Seq<char>>,
    pub schema: Option<Seq<char>>,
}

pub struct ItemView {
    pub id: Option<Seq<char>>,
    pub name: Seq<char>,
    pub request: Option<SavedView>,
    pub prerequest: Seq<Seq<char>>,
    pub test: Seq<Seq<char>>,
    pub items: Seq<ItemView>,
}

pub struct ScenarioView {
    pub info: InfoView,
    pub items: Seq<ItemView>,
    pub variables: Map<Seq<char>, Seq<char>>,
    pub conversion_notes: Seq<Seq<char>>,
}

pub open spec fn opt_request(r: Option<SavedRequest>) -> Option<SavedView> {
    match r {
        Some(r) => Some(r@),
        None => None,
    }
}

pub open spec fn item_view(item: ScenarioItem) -> ItemView
    decreases item,
{
    ItemView {
        id: text::opt_text(item.id),
        name: item.name@,
        request: opt_request(item.request),
        prerequest: text::views(item.prerequest@),
        test: text::views(item.test@),
        items: Seq::new(
            item.items@.len(),
            |i: int|
                if 0 <= i < item.items@.len() {
                    item_view(item.items@[i])
                } else {
                    arbitrary()
                },
        ),
    }
}

impl View for ScenarioItem {
    type V = ItemView;

    open spec fn view(&self) -> ItemView {
        item_view(*self)
    }
}

pub open spec fn item_views(items: Seq<ScenarioItem>) -> Seq<ItemView> {
    items.map_values(|i: ScenarioItem| i@)
}

impl View for Scenario {
    type V = ScenarioView;

    open spec fn view(&self) -> ScenarioView {
        ScenarioView {
            info: InfoView {
                name: self.info.name@,
                description: text::opt_text(self.info.description),
                schema: text::opt_text(self.info.schema),
            },
            items: item_views(self.items@),
            variables: string_map::texts(self.variables@),
            conversion_notes: text::views(self.conversion_notes@),
        }
    }
}

/// An item that holds a request.
pub open spec fn request_item(name: Seq<char>, request: SavedView) -> ItemView {
    ItemView {
        id: None,
        name,
        request: Some(request),
        prerequest: Seq::empty(),
        test: Seq::empty(),
        items: Seq::empty(),
    }
}

/// An item that holds other items.
pub open spec fn folder_item(name: Seq<char>, items: Seq<ItemView>) -> ItemView {
    ItemView {
        id: None,
        name,
        request: None,
        prerequest: Seq::empty(),
        test: Seq::empty(),
        items,
    }
}

/// An item that holds a script.
pub open spec fn script_item(name: Seq<char>, code: Seq<char>) -> ItemView {
    ItemView {
        id: None,
        name,
        request: None,
        prerequest: Seq::empty(),
        test: seq![code],
        items: Seq::empty(),
    }
}

impl ScenarioItem {
    pub fn of_request(name: String, request: SavedRequest) -> (r: ScenarioItem)
        ensures
            r@ == request_item(name@, request@),
    {
        let r = ScenarioItem {
            id: None,
            name,
            request: Some(request),
            prerequest: Vec::new(),
            test: Vec::new(),
            items: Vec::new(),
        };
        assert(r@.prerequest =~= Seq::empty());
        assert(r@.test =~= Seq::empty());
        assert(r@.items =~= Seq::empty());
        r
    }

    pub fn of_folder(name: String, items: Vec<ScenarioItem>) -> (r: ScenarioItem)
        ensures
            r@ == folder_item(name@, item_views(items@)),
    {
        let r = ScenarioItem {
            id: None,
            name,
            request: None,
            prerequest: Vec::new(),
            test: Vec::new(),
            items,
        };
        assert(r@.prerequest =~= Seq::empty());
        assert(r@.test =~= Seq::empty());
        assert(r@.items =~= item_views(items@));
        r
    }

    pub fn of_script(name: String, code: String) -> (r: ScenarioItem)
        ensures
            r@ == script_item(name@, code@),
    {
        let mut test: Vec<String> = Vec::new();
        test.push(code);
        let r = ScenarioItem {
            id: None,
            name,
            request: None,
            prerequest: Vec::new(),
            test,
            items: Vec::new(),
        };
        assert(r@.prerequest =~= Seq::empty());
        assert(r@.test =~= seq![code@]);
        assert(r@.items =~= Seq::empty());
        r
    }
}

// ── laws ──

/// An item holds one thing: a request and nothing below it, items and no request, or
/// a script as its test. It has the name it was given, and no identity.
pub proof fn law_items_hold_one_thing(
    name: Seq<char>,
    request: SavedView,
    items: Seq<ItemView>,
    code: Seq<char>,
)
    ensures
        ({
            let r = request_item(name, request);
            let f = folder_item(name, items);
            let s = script_item(name, code);
            &&& r.name == name && f.name == name && s.name == name
            &&& r.id is None && f.id is None && s.id is None
            &&& r.request == Some(request) && f.request is None && s.request is None
            &&& r.items.len() == 0 && f.items == items && s.items.len() == 0
            &&& r.test.len() == 0 && f.test.len() == 0 && s.test == seq![code]
            &&& r.prerequest.len() == 0 && f.prerequest.len() == 0 && s.prerequest.len() == 0
        }),
{
}

} // verus!
