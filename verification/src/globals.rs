//! The global variables of a script.
//!
//! What never changes for a virtual user is set before its first iteration, and
//! what does change before each. Numbers are set as numbers, so that a script can
//! count with them.

use crate::json;
use crate::json::Json;
use crate::script_state::ScriptState;
use crate::string_map;
use crate::string_map::StringMap;
use crate::text;
use vstd::prelude::*;
use vstd::string::*;

verus! {

/// The value of a global variable.
#[derive(Debug)]
pub enum GlobalValue {
    Number(u64),
    Text(String),
    /// An object of texts.
    Texts(StringMap<String>),
    /// A value given by its JSON text.
    JsonText(String),
    Document(Json),
    Undefined,
}

#[verifier::ext_equal]
pub enum GlobalView {
    Number(u64),
    Text(Seq<char>),
    Texts(Map<Seq<char>, Seq<char>>),
    JsonText(Seq<char>),
    Document(json::JsonView),
    Undefined,
}

impl View for GlobalValue {
    type V = GlobalView;

    open spec fn view(&self) -> GlobalView {
        match *self {
            GlobalValue::Number(n) => GlobalView::Number(n),
            GlobalValue::Text(s) => GlobalView::Text(s@),
            GlobalValue::Texts(m) => GlobalView::Texts(string_map::texts(m@)),
            GlobalValue::JsonText(s) => GlobalView::JsonText(s@),
            GlobalValue::Document(doc) => GlobalView::Document(doc@),
            GlobalValue::Undefined => GlobalView::Undefined,
        }
    }
}

/// What the host knows of a virtual user before an iteration.
#[derive(Debug)]
pub struct VuFacts {
    /// Counted from zero.
    pub vu_id: u32,
    pub iteration: u64,
    pub iterations_completed: u64,
    pub vus_active: u32,
    pub scenario_name: String,
    pub executor_name: String,
    pub env: StringMap<String>,
    /// The JSON text that the setup of the script returned.
    pub setup_data: Option<String>,
    /// The JSON text of the row of data for this iteration.
    pub data_row: Option<String>,
}

pub open spec fn global_views(v: Seq<(String, GlobalValue)>) -> Seq<(Seq<char>, GlobalView)> {
    v.map_values(|g: (String, GlobalValue)| (g.0@, g.1@))
}

/// What is set once: the number of the virtual user, from zero and from one, its
/// scenario, its environment, and what the setup returned.
pub open spec fn lasting_globals(facts: VuFacts, setup: Option<json::JsonView>) -> Seq<
    (Seq<char>, GlobalView),
> {
    let env = GlobalView::Texts(string_map::texts(facts.env@));
    seq![
        ("__tropel_vu_id"@, GlobalView::Number(facts.vu_id as u64)),
        ("__tropel_scenario"@, GlobalView::Text(facts.scenario_name@)),
        ("__VU"@, GlobalView::Number((facts.vu_id + 1) as u64)),
        ("__ENV"@, env),
        ("__tropel_env"@, env),
        (
            "__tropel_setup"@,
            match setup {
                Some(doc) => GlobalView::Document(doc),
                None => GlobalView::Undefined,
            },
        ),
    ]
}

/// What is set before each iteration: its number, counted from zero, and its row
/// of data, if there is one.
pub open spec fn passing_globals(facts: VuFacts) -> Seq<(Seq<char>, GlobalView)> {
    seq![
        ("__tropel_iteration_num"@, GlobalView::Number(facts.iteration)),
        ("__ITER"@, GlobalView::Number(facts.iteration)),
    ] + (match facts.data_row {
        Some(row) => seq![("__tropel_data_row"@, GlobalView::JsonText(row@))],
        None => Seq::empty(),
    })
}

/// What is set before an iteration.
pub open spec fn iteration_globals(
    seeded: bool,
    facts: VuFacts,
    setup: Option<json::JsonView>,
) -> Seq<(Seq<char>, GlobalView)> {
    if seeded {
        passing_globals(facts)
    } else {
        lasting_globals(facts, setup) + passing_globals(facts)
    }
}

/// What is set where a script is read outside of any virtual user.
pub open spec fn bare_globals(env: Map<Seq<char>, Seq<char>>) -> Seq<(Seq<char>, GlobalView)> {
    seq![
        ("__VU"@, GlobalView::Number(0)),
        ("__ITER"@, GlobalView::Number(0)),
        ("__ENV"@, GlobalView::Texts(env)),
        ("__tropel_env"@, GlobalView::Texts(env)),
    ]
}

/// What the setup returned, where it is JSON.
pub open spec fn setup_document(data: Option<Seq<char>>) -> Option<json::JsonView> {
    match data {
        Some(s) => json::json_document(s),
        None => None,
    }
}

fn assign(v: &mut Vec<(String, GlobalValue)>, name: &str, value: GlobalValue)
    ensures
        global_views(final(v)@) == global_views(old(v)@).push((name@, value@)),
{
    let ghost before = v@;
    v.push((name.to_owned(), value));
    assert(global_views(v@) =~= global_views(before).push((name@, value@)));
}

/// What is set before an iteration, given what the setup returned.
pub fn globals_to_set(seeded: bool, facts: &VuFacts, setup: Option<Json>) -> (r: Vec<
    (String, GlobalValue),
>)
    requires
        seeded || facts.vu_id < u32::MAX,
    ensures
        global_views(r@) == iteration_globals(
            seeded,
            *facts,
            json::opt_document(setup),
        ),
{
    let mut r: Vec<(String, GlobalValue)> = Vec::new();
    let ghost document = json::opt_document(setup);
    assert(global_views(r@) =~= Seq::empty());
    if !seeded {
        assign(&mut r, "__tropel_vu_id", GlobalValue::Number(facts.vu_id as u64));
        assign(&mut r, "__tropel_scenario", GlobalValue::Text(facts.scenario_name.clone()));
        assign(&mut r, "__VU", GlobalValue::Number((facts.vu_id + 1) as u64));
        assign(&mut r, "__ENV", GlobalValue::Texts(facts.env.copy()));
        assign(&mut r, "__tropel_env", GlobalValue::Texts(facts.env.copy()));
        match setup {
            Some(doc) => assign(&mut r, "__tropel_setup", GlobalValue::Document(doc)),
            None => assign(&mut r, "__tropel_setup", GlobalValue::Undefined),
        }
    }
    assign(&mut r, "__tropel_iteration_num", GlobalValue::Number(facts.iteration));
    assign(&mut r, "__ITER", GlobalValue::Number(facts.iteration));
    if let Some(row) = &facts.data_row {
        assign(&mut r, "__tropel_data_row", GlobalValue::JsonText(row.clone()));
    }
    assert(global_views(r@) =~= iteration_globals(seeded, *facts, document));
    r
}

/// What the script reads of its execution, after the facts of an iteration are
/// taken in. The scenario, the executor and the number of the virtual user are
/// taken once.
pub open spec fn takes_facts(
    before: ScriptState,
    after: ScriptState,
    seeded: bool,
    facts: VuFacts,
) -> bool {
    let e = after.exec_state;
    let b = before.exec_state;
    &&& after.samples == before.samples
    &&& after.groups == before.groups
    &&& after.abort == before.abort
    &&& e.iteration == facts.iteration
    &&& e.iterations_completed == facts.iterations_completed
    &&& e.vus_active == facts.vus_active
    &&& e.vu_id == if seeded {
        b.vu_id
    } else {
        facts.vu_id
    }
    &&& e.scenario_name@ == if seeded {
        b.scenario_name@
    } else {
        facts.scenario_name@
    }
    &&& e.executor_name@ == if seeded {
        b.executor_name@
    } else {
        facts.executor_name@
    }
}

/// Takes the facts of an iteration into the state of the script, and says what is
/// set before it.
pub fn sync_globals(seeded: bool, facts: &VuFacts, state: &mut ScriptState) -> (r: Vec<
    (String, GlobalValue),
>)
    requires
        seeded || facts.vu_id < u32::MAX,
    ensures
        takes_facts(*old(state), *final(state), seeded, *facts),
        global_views(r@) == iteration_globals(
            seeded,
            *facts,
            setup_document(text::opt_text(facts.setup_data)),
        ),
{
    let setup = if seeded {
        None
    } else {
        state.exec_state.scenario_name = facts.scenario_name.clone();
        state.exec_state.executor_name = facts.executor_name.clone();
        state.exec_state.vu_id = facts.vu_id;
        match &facts.setup_data {
            Some(s) => Json::parse(s.as_str()),
            None => None,
        }
    };
    state.exec_state.iteration = facts.iteration;
    state.exec_state.iterations_completed = facts.iterations_completed;
    state.exec_state.vus_active = facts.vus_active;
    globals_to_set(seeded, facts, setup)
}

/// What is set where a script is read outside of any virtual user.
pub fn globals_outside(env: &StringMap<String>) -> (r: Vec<(String, GlobalValue)>)
    ensures
        global_views(r@) == bare_globals(string_map::texts(env@)),
{
    let mut r: Vec<(String, GlobalValue)> = Vec::new();
    assign(&mut r, "__VU", GlobalValue::Number(0));
    assign(&mut r, "__ITER", GlobalValue::Number(0));
    assign(&mut r, "__ENV", GlobalValue::Texts(env.copy()));
    assign(&mut r, "__tropel_env", GlobalValue::Texts(env.copy()));
    assert(global_views(r@) =~= bare_globals(string_map::texts(env@)));
    r
}

// ── laws ──

/// Every iteration sets its number, as a number.
pub proof fn law_every_iteration_sets_its_number(
    seeded: bool,
    facts: VuFacts,
    setup: Option<json::JsonView>,
)
    ensures
        iteration_globals(seeded, facts, setup).contains(
            ("__ITER"@, GlobalView::Number(facts.iteration)),
        ),
{
    let all = iteration_globals(seeded, facts, setup);
    if seeded {
        assert(all[1] == ("__ITER"@, GlobalView::Number(facts.iteration)));
    } else {
        assert(all[7] == ("__ITER"@, GlobalView::Number(facts.iteration)));
    }
}

/// After the first iteration only the number of the iteration and its row of data
/// are set: what was set once is kept.
pub proof fn law_later_iterations_keep_the_rest(
    facts: VuFacts,
    setup: Option<json::JsonView>,
    i: int,
)
    requires
        0 <= i < iteration_globals(true, facts, setup).len(),
    ensures
        ({
            let name = iteration_globals(true, facts, setup)[i].0;
            &&& name == "__tropel_iteration_num"@ || name == "__ITER"@ || name
                == "__tropel_data_row"@
            &&& name != "__VU"@ && name != "__ENV"@ && name != "__tropel_env"@
            &&& name != "__tropel_vu_id"@ && name != "__tropel_scenario"@
            &&& name != "__tropel_setup"@
        }),
{
    reveal_strlit("__tropel_iteration_num");
    reveal_strlit("__ITER");
    reveal_strlit("__tropel_data_row");
    reveal_strlit("__VU");
    reveal_strlit("__ENV");
    reveal_strlit("__tropel_env");
    reveal_strlit("__tropel_vu_id");
    reveal_strlit("__tropel_scenario");
    reveal_strlit("__tropel_setup");
    assert("__tropel_data_row"@[9] != "__tropel_scenario"@[9]);
}

/// What is set before the first iteration, each under its name: the number of the
/// virtual user from zero and from one, its scenario, its environment twice, what
/// the setup returned, and the number of the iteration.
pub proof fn law_first_iteration_sets_everything(facts: VuFacts, setup: Option<json::JsonView>)
    requires
        facts.vu_id < u32::MAX,
    ensures
        ({
            let all = iteration_globals(false, facts, setup);
            let env = GlobalView::Texts(string_map::texts(facts.env@));
            &&& all.contains(("__tropel_vu_id"@, GlobalView::Number(facts.vu_id as u64)))
            &&& all.contains(("__VU"@, GlobalView::Number((facts.vu_id + 1) as u64)))
            &&& all.contains(("__tropel_scenario"@, GlobalView::Text(facts.scenario_name@)))
            &&& all.contains(("__ENV"@, env))
            &&& all.contains(("__tropel_env"@, env))
            &&& setup matches Some(doc) ==> all.contains(
                ("__tropel_setup"@, GlobalView::Document(doc)),
            )
            &&& setup is None ==> all.contains(("__tropel_setup"@, GlobalView::Undefined))
            &&& all.contains(("__tropel_iteration_num"@, GlobalView::Number(facts.iteration)))
            &&& all.contains(("__ITER"@, GlobalView::Number(facts.iteration)))
            &&& facts.data_row matches Some(row) ==> all.contains(
                ("__tropel_data_row"@, GlobalView::JsonText(row@)),
            )
            &&& facts.data_row is Some ==> all.len() == 9
            &&& facts.data_row is None ==> all.len() == 8
        }),
{
    let all = iteration_globals(false, facts, setup);
    let passing = passing_globals(facts);
    assert(all[0].0 == "__tropel_vu_id"@ && all[1].0 == "__tropel_scenario"@ && all[2].0 == "__VU"@);
    assert(all[3].0 == "__ENV"@ && all[4].0 == "__tropel_env"@ && all[5].0 == "__tropel_setup"@);
    assert(all[6] == passing[0] && all[7] == passing[1]);
    assert(all[6].0 == "__tropel_iteration_num"@ && all[7].0 == "__ITER"@);
    if facts.data_row is Some {
        assert(all[8] == passing[2]);
        assert(all[8].0 == "__tropel_data_row"@);
    }
}

/// What is set before a later iteration: its number, twice, and its row of data.
pub proof fn law_later_iterations_set_their_number(facts: VuFacts, setup: Option<json::JsonView>)
    ensures
        ({
            let all = iteration_globals(true, facts, setup);
            &&& all.contains(("__tropel_iteration_num"@, GlobalView::Number(facts.iteration)))
            &&& all.contains(("__ITER"@, GlobalView::Number(facts.iteration)))
            &&& facts.data_row matches Some(row) ==> all.contains(
                ("__tropel_data_row"@, GlobalView::JsonText(row@)),
            )
            &&& facts.data_row is Some ==> all.len() == 3
            &&& facts.data_row is None ==> all.len() == 2
        }),
{
    let all = iteration_globals(true, facts, setup);
    assert(all[0].0 == "__tropel_iteration_num"@ && all[1].0 == "__ITER"@);
    if facts.data_row is Some {
        assert(all[2].0 == "__tropel_data_row"@);
    }
}

/// Outside of any virtual user the numbers are zero, and the environment is set.
pub proof fn law_globals_outside(env: Map<Seq<char>, Seq<char>>)
    ensures
        ({
            let all = bare_globals(env);
            &&& all.len() == 4
            &&& all.contains(("__VU"@, GlobalView::Number(0)))
            &&& all.contains(("__ITER"@, GlobalView::Number(0)))
            &&& all.contains(("__ENV"@, GlobalView::Texts(env)))
            &&& all.contains(("__tropel_env"@, GlobalView::Texts(env)))
        }),
{
    let all = bare_globals(env);
    assert(all[0].0 == "__VU"@ && all[1].0 == "__ITER"@ && all[2].0 == "__ENV"@ && all[3].0
        == "__tropel_env"@);
}

/// The facts of an iteration reach the state that the script reads. The scenario,
/// the executor and the number of the virtual user are taken at the first iteration
/// and kept, and what was recorded is left alone.
pub proof fn law_facts_reach_the_script(
    before: ScriptState,
    after: ScriptState,
    seeded: bool,
    facts: VuFacts,
)
    requires
        takes_facts(before, after, seeded, facts),
    ensures
        after.exec_state.iteration == facts.iteration,
        after.exec_state.iterations_completed == facts.iterations_completed,
        after.exec_state.vus_active == facts.vus_active,
        !seeded ==> after.exec_state.vu_id == facts.vu_id,
        !seeded ==> after.exec_state.scenario_name@ == facts.scenario_name@,
        !seeded ==> after.exec_state.executor_name@ == facts.executor_name@,
        seeded ==> after.exec_state.vu_id == before.exec_state.vu_id,
        seeded ==> after.exec_state.scenario_name@ == before.exec_state.scenario_name@,
        seeded ==> after.exec_state.executor_name@ == before.exec_state.executor_name@,
        after.samples == before.samples,
        after.groups == before.groups,
        after.abort == before.abort,
{
}

/// What the setup returned is read as JSON, where it returned something.
pub proof fn law_setup_is_read(data: Option<Seq<char>>)
    ensures
        data is None ==> setup_document(data) is None,
        data matches Some(s) ==> setup_document(data) == json::json_document(s),
{
}

} // verus!
