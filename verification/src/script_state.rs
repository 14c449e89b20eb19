//! What a script records while it runs: checks, metrics of its own, groups and
//! the wish to end the test.

use crate::binary64;
use crate::binary64::Binary64;
use crate::http_samples;
use crate::json;
use crate::samples;
use crate::samples::{Sample, SampleType, SampleValue};
use crate::string_map;
use crate::string_map::StringMap;
use crate::text;
use vstd::prelude::*;
use vstd::string::*;

verus! {

/// What a script reads of its execution.
#[derive(Debug)]
pub struct ExecState {
    pub scenario_name: String,
    pub executor_name: String,
    /// Counted from zero.
    pub vu_id: u32,
    pub iteration: u64,
    pub iterations_completed: u64,
    pub vus_active: u32,
}

impl Default for ExecState {
    fn default() -> (r: ExecState)
        ensures
            r.scenario_name@.len() == 0,
            r.executor_name@.len() == 0,
            r.vu_id == 0,
            r.iteration == 0,
            r.iterations_completed == 0,
            r.vus_active == 0,
    {
        ExecState {
            scenario_name: String::new(),
            executor_name: String::new(),
            vu_id: 0,
            iteration: 0,
            iterations_completed: 0,
            vus_active: 0,
        }
    }
}

impl ExecState {
    /// The number of the virtual user, counted from one.
    pub fn id_in_test(&self) -> (r: u32)
        requires
            self.vu_id < u32::MAX,
        ensures
            r == self.vu_id + 1,
    {
        self.vu_id + 1
    }
}

/// The state of a script.
#[derive(Debug)]
pub struct ScriptState {
    /// The samples recorded since they were last drained.
    pub samples: Vec<Sample>,
    /// The paths of the groups that are open, the outermost first.
    pub groups: Vec<String>,
    pub exec_state: ExecState,
    /// Why the script asks to end the test.
    pub abort: Option<String>,
}

// ── groups ──

/// The path of a group: the names of the groups around it and its own, each after
/// two colons.
pub open spec fn group_path(open: Seq<Seq<char>>, name: Seq<char>) -> Seq<char> {
    if open.len() == 0 {
        "::"@ + name
    } else {
        open.last() + "::"@ + name
    }
}

/// The path of the innermost open group.
pub open spec fn current_group(open: Seq<Seq<char>>) -> Option<Seq<char>> {
    if open.len() == 0 {
        None
    } else {
        Some(open.last())
    }
}

impl ScriptState {
    /// The state before a script runs: nothing recorded, no group open, and an
    /// execution that has not begun.
    pub fn new() -> (r: ScriptState)
        ensures
            r.samples@.len() == 0,
            r.groups@.len() == 0,
            r.abort is None,
            r.exec_state.scenario_name@.len() == 0,
            r.exec_state.executor_name@.len() == 0,
            r.exec_state.vu_id == 0,
            r.exec_state.iteration == 0,
            r.exec_state.iterations_completed == 0,
            r.exec_state.vus_active == 0,
    {
        ScriptState {
            samples: Vec::new(),
            groups: Vec::new(),
            exec_state: ExecState::default(),
            abort: None,
        }
    }

    /// The path of the innermost open group.
    pub fn group(&self) -> (r: Option<String>)
        ensures
            text::opt_text(r) == current_group(text::views(self.groups@)),
    {
        let n: usize = self.groups.len();
        if n == 0 {
            None
        } else {
            Some(self.groups[n - 1].clone())
        }
    }

    /// Opens a group.
    pub fn group_start(&mut self, name: &str)
        ensures
            text::views(final(self).groups@) == text::views(old(self).groups@).push(
                group_path(text::views(old(self).groups@), name@),
            ),
            final(self).samples == old(self).samples,
            final(self).exec_state == old(self).exec_state,
            final(self).abort == old(self).abort,
    {
        let n: usize = self.groups.len();
        let mut full = if n == 0 {
            String::new()
        } else {
            self.groups[n - 1].clone()
        };
        full.append("::");
        full.append(name);
        let ghost before = self.groups@;
        assert(full@ =~= group_path(text::views(before), name@));
        self.groups.push(full);
        assert(text::views(self.groups@) =~= text::views(before).push(full@));
    }

    /// Closes the innermost open group and records how long it took, in
    /// milliseconds. Where none is open, the name stands for one at the top.
    pub fn group_end(&mut self, name: &str, duration_ms: Binary64, now: u64)
        ensures
            text::views(final(self).groups@) == closed(text::views(old(self).groups@)),
            samples::views(final(self).samples@) == samples::views(old(self).samples@).push(
                group_sample(text::views(old(self).groups@), name@, duration_ms, now),
            ),
            final(self).exec_state == old(self).exec_state,
            final(self).abort == old(self).abort,
    {
        let ghost before = self.groups@;
        let full = match self.groups.pop() {
            Some(path) => path,
            None => text::cat("::", name),
        };
        proof {
            assert(text::views(self.groups@) =~= closed(text::views(before)));
        }
        let mut tags: StringMap<String> = StringMap::new();
        assert(string_map::texts(tags@) =~= Map::empty());
        tags.set("group", full.as_str());
        samples::push(
            &mut self.samples,
            "group_duration",
            SampleValue::Number(duration_ms),
            &tags,
            now,
            SampleType::Trend,
        );
    }

    /// Records a check.
    pub fn pm_test(&mut self, name: &str, passed: bool, tags_json: Option<&str>, now: u64)
        ensures
            samples::views(final(self).samples@) == samples::views(old(self).samples@).push(
                check_sample(
                    name@,
                    passed,
                    current_group(text::views(old(self).groups@)),
                    declared_tags(json::opt_view(tags_json)),
                    now,
                ),
            ),
            samples::views(final(self).samples@) == samples::views(old(self).samples@).push(
                samples::sample(
                    "checks"@,
                    SampleValue::Flag(passed),
                    check_tags(
                        name@,
                        current_group(text::views(old(self).groups@)),
                        declared_tags(json::opt_view(tags_json)),
                    ),
                    now,
                    SampleType::Rate,
                ),
            ),
            final(self).groups == old(self).groups,
            final(self).exec_state == old(self).exec_state,
            final(self).abort == old(self).abort,
    {
        let group = self.group();
        let mut tags: StringMap<String> = StringMap::new();
        assert(string_map::texts(tags@) =~= Map::empty());
        tags.set("check", name);
        if let Some(g) = &group {
            tags.set("group", g.as_str());
        }
        if let Some(j) = tags_json {
            http_samples::stringify_tag_map_into(j, &mut tags);
        }
        samples::push(
            &mut self.samples,
            "checks",
            SampleValue::Flag(passed),
            &tags,
            now,
            SampleType::Rate,
        );
    }

    /// Records a value of a metric of the script. What is not a finite number is
    /// dropped. The result says whether the metric is one of times, which the
    /// host has to be told.
    pub fn custom_metric_add(
        &mut self,
        name: &str,
        value: Binary64,
        tags_json: &str,
        metric_type: &str,
        is_time: bool,
        now: u64,
    ) -> (r: bool)
        ensures
            r == (binary64::is_finite(value) && is_time),
            binary64::is_finite(value) ==> samples::views(final(self).samples@) == samples::views(
                old(self).samples@,
            ).push(
                metric_sample(
                    name@,
                    value,
                    current_group(text::views(old(self).groups@)),
                    declared_tags(metric_tags_text(tags_json@)),
                    metric_type@,
                    now,
                ),
            ),
            binary64::is_finite(value) ==> samples::views(final(self).samples@) == samples::views(
                old(self).samples@,
            ).push(
                samples::sample(
                    name@,
                    SampleValue::Number(value),
                    metric_tags(
                        current_group(text::views(old(self).groups@)),
                        declared_tags(metric_tags_text(tags_json@)),
                    ),
                    now,
                    metric_type_of(metric_type@),
                ),
            ),
            !binary64::is_finite(value) ==> final(self).samples == old(self).samples,
            final(self).groups == old(self).groups,
            final(self).exec_state == old(self).exec_state,
            final(self).abort == old(self).abort,
    {
        if !value.finite() {
            return false;
        }
        let mut tags: StringMap<String> = StringMap::new();
        assert(string_map::texts(tags@) =~= Map::empty());
        if !text::empty(tags_json) && !text::same_text(tags_json, "{}") {
            http_samples::stringify_tag_map_into(tags_json, &mut tags);
        }
        let group = self.group();
        if let Some(g) = &group {
            if !tags.contains_key("group") {
                tags.set("group", g.as_str());
            }
        }
        let sample_type = if text::same_text(metric_type, "counter") {
            SampleType::Counter
        } else if text::same_text(metric_type, "gauge") {
            SampleType::Point
        } else if text::same_text(metric_type, "rate") {
            SampleType::Rate
        } else {
            SampleType::Trend
        };
        samples::push(
            &mut self.samples,
            name,
            SampleValue::Number(value),
            &tags,
            now,
            sample_type,
        );
        is_time
    }

    /// Asks to end the test. The last reason given is kept.
    pub fn test_abort(&mut self, msg: &str)
        ensures
            text::opt_text(final(self).abort) == Some(msg@),
            final(self).samples == old(self).samples,
            final(self).groups == old(self).groups,
            final(self).exec_state == old(self).exec_state,
    {
        self.abort = Some(msg.to_owned());
    }
}

/// The groups that are open after the innermost one is closed.
pub open spec fn closed(open: Seq<Seq<char>>) -> Seq<Seq<char>> {
    if open.len() == 0 {
        open
    } else {
        open.drop_last()
    }
}

/// The sample of a group that is closed.
pub open spec fn group_sample(
    open: Seq<Seq<char>>,
    name: Seq<char>,
    duration_ms: Binary64,
    now: u64,
) -> samples::SampleView {
    let path = match current_group(open) {
        Some(path) => path,
        None => "::"@ + name,
    };
    samples::sample(
        "group_duration"@,
        SampleValue::Number(duration_ms),
        Map::empty().insert("group"@, path),
        now,
        SampleType::Trend,
    )
}

/// The document of tags that a script passes.
pub open spec fn declared_tags(text: Option<Seq<char>>) -> Option<json::JsonView> {
    match text {
        Some(t) => json::json_document(t),
        None => None,
    }
}

/// The text of the tags of a metric, where it holds any.
pub open spec fn metric_tags_text(text: Seq<char>) -> Option<Seq<char>> {
    if text.len() == 0 || text == "{}"@ {
        None
    } else {
        Some(text)
    }
}

/// The tags of a check: its name and its group, and those that the script passes,
/// which win.
pub open spec fn check_tags(
    name: Seq<char>,
    group: Option<Seq<char>>,
    passed: Option<json::JsonView>,
) -> Map<Seq<char>, Seq<char>> {
    let named = Map::empty().insert("check"@, name);
    http_samples::with_document(
        match group {
            Some(g) => named.insert("group"@, g),
            None => named,
        },
        passed,
    )
}

/// The tags of a metric: those that the script passes, and its group, unless the
/// script passes one.
pub open spec fn metric_tags(group: Option<Seq<char>>, passed: Option<json::JsonView>) -> Map<
    Seq<char>,
    Seq<char>,
> {
    let tags = http_samples::with_document(Map::empty(), passed);
    match group {
        Some(g) => if tags.contains_key("group"@) {
            tags
        } else {
            tags.insert("group"@, g)
        },
        None => tags,
    }
}

/// The sample of a check.
pub open spec fn check_sample(
    name: Seq<char>,
    passed: bool,
    group: Option<Seq<char>>,
    tags: Option<json::JsonView>,
    now: u64,
) -> samples::SampleView {
    samples::sample(
        "checks"@,
        SampleValue::Flag(passed),
        check_tags(name, group, tags),
        now,
        SampleType::Rate,
    )
}

/// The sample of a metric of the script.
pub open spec fn metric_sample(
    name: Seq<char>,
    value: Binary64,
    group: Option<Seq<char>>,
    tags: Option<json::JsonView>,
    metric_type: Seq<char>,
    now: u64,
) -> samples::SampleView {
    samples::sample(
        name,
        SampleValue::Number(value),
        metric_tags(group, tags),
        now,
        metric_type_of(metric_type),
    )
}

/// The type of a metric by its name. A metric of an unknown type is a trend.
pub open spec fn metric_type_of(name: Seq<char>) -> SampleType {
    if name == "counter"@ {
        SampleType::Counter
    } else if name == "gauge"@ {
        SampleType::Point
    } else if name == "rate"@ {
        SampleType::Rate
    } else {
        SampleType::Trend
    }
}

// ── laws ──

/// Closing a group leaves the groups open that were open before it.
pub proof fn law_group_end_undoes_group_start(open: Seq<Seq<char>>, name: Seq<char>)
    ensures
        closed(open.push(group_path(open, name))) == open,
{
    assert(open.push(group_path(open, name)).drop_last() =~= open);
}

/// A group that is closed is recorded under the path it was opened with.
pub proof fn law_group_is_recorded_under_its_path(
    open: Seq<Seq<char>>,
    name: Seq<char>,
    duration_ms: Binary64,
    now: u64,
)
    ensures
        group_sample(open.push(group_path(open, name)), name, duration_ms, now).tags["group"@]
            == group_path(open, name),
{
}

/// Groups with one name in different groups have different paths.
pub proof fn law_group_paths_keep_the_parent(
    a: Seq<Seq<char>>,
    b: Seq<Seq<char>>,
    name: Seq<char>,
)
    requires
        a.len() > 0,
        b.len() > 0,
        a.last() != b.last(),
    ensures
        group_path(a, name) != group_path(b, name),
{
    let tail = "::"@ + name;
    let x = group_path(a, name);
    let y = group_path(b, name);
    assert(x =~= a.last() + tail);
    assert(y =~= b.last() + tail);
    if x == y {
        assert(x.take(x.len() - tail.len()) =~= a.last());
        assert(y.take(y.len() - tail.len()) =~= b.last());
    }
}

/// A metric recorded in a group has the path of the group as a tag, unless the
/// script passes a group of its own.
pub proof fn law_metric_carries_its_group(path: Seq<char>, passed: Option<json::JsonView>)
    ensures
        metric_tags(Some(path), passed).contains_key("group"@),
        !http_samples::with_document(Map::empty(), passed).contains_key("group"@) ==> metric_tags(
            Some(path),
            passed,
        )["group"@] == path,
{
}

/// A check is recorded as passed or failed, under the metric of checks, with its
/// name and its group as tags where the script passes none of these names.
pub proof fn law_check_is_recorded(
    name: Seq<char>,
    passed: bool,
    group: Option<Seq<char>>,
    tags: Option<json::JsonView>,
    now: u64,
)
    ensures
        ({
            let s = check_sample(name, passed, group, tags, now);
            let own = http_samples::with_document(Map::empty(), tags);
            &&& s.metric == "checks"@
            &&& s.value == SampleValue::Flag(passed)
            &&& s.sample_type == SampleType::Rate
            &&& s.timestamp == now
            &&& s.tags.contains_key("check"@)
            &&& !own.contains_key("check"@) ==> s.tags["check"@] == name
            &&& group is Some ==> s.tags.contains_key("group"@)
            &&& group is Some && !own.contains_key("group"@) ==> s.tags["group"@] == group->0
            &&& group is None && !own.contains_key("group"@) ==> !s.tags.contains_key("group"@)
            &&& forall|k: Seq<char>| #[trigger]
                own.contains_key(k) ==> s.tags.contains_key(k) && s.tags[k] == own[k]
            &&& forall|k: Seq<char>| #[trigger]
                s.tags.contains_key(k) ==> own.contains_key(k) || k == "check"@ || (k == "group"@
                    && group is Some)
        }),
{
    reveal_strlit("check");
    reveal_strlit("group");
    assert("check"@[0] != "group"@[0]);
    let named = Map::<Seq<char>, Seq<char>>::empty().insert("check"@, name);
    let base = match group {
        Some(g) => named.insert("group"@, g),
        None => named,
    };
    let own = http_samples::with_document(Map::empty(), tags);
    let all = check_sample(name, passed, group, tags, now).tags;
    if tags is Some && tags->0.node is Object {
        lemma_entries_over(base, tags->0.node->Object_0);
    }
    assert(all =~= base.union_prefer_right(own));
    assert forall|k: Seq<char>| #[trigger] all.contains_key(k) implies own.contains_key(k) || k
        == "check"@ || (k == "group"@ && group is Some) by {}
    assert forall|k: Seq<char>| #[trigger] own.contains_key(k) implies all.contains_key(k)
        && all[k] == own[k] by {}
}

/// Entries win over the tags that are there, and leave the others.
proof fn lemma_entries_over(
    base: Map<Seq<char>, Seq<char>>,
    entries: Seq<(Seq<char>, json::JsonView)>,
)
    ensures
        http_samples::with_entries(base, entries) == base.union_prefer_right(
            http_samples::with_entries(Map::empty(), entries),
        ),
    decreases entries.len(),
{
    let own = http_samples::with_entries(Map::empty(), entries);
    let all = http_samples::with_entries(base, entries);
    if entries.len() > 0 {
        lemma_entries_over(base, entries.drop_last());
    }
    assert(all =~= base.union_prefer_right(own));
}

/// A value of a metric is recorded under the name that the script gives it, with
/// the type that the script gives it, with the tags that the script passes, and
/// with its group where the script passes none.
pub proof fn law_metric_is_recorded(
    name: Seq<char>,
    value: Binary64,
    group: Option<Seq<char>>,
    tags: Option<json::JsonView>,
    metric_type: Seq<char>,
    now: u64,
)
    ensures
        ({
            let s = metric_sample(name, value, group, tags, metric_type, now);
            let own = http_samples::with_document(Map::empty(), tags);
            &&& s.metric == name
            &&& s.value == SampleValue::Number(value)
            &&& s.timestamp == now
            &&& metric_type == "counter"@ ==> s.sample_type == SampleType::Counter
            &&& metric_type == "gauge"@ ==> s.sample_type == SampleType::Point
            &&& metric_type == "rate"@ ==> s.sample_type == SampleType::Rate
            &&& metric_type != "counter"@ && metric_type != "gauge"@ && metric_type != "rate"@
                ==> s.sample_type == SampleType::Trend
            &&& forall|k: Seq<char>| #[trigger]
                own.contains_key(k) ==> s.tags.contains_key(k) && s.tags[k] == own[k]
            &&& forall|k: Seq<char>| #[trigger]
                s.tags.contains_key(k) ==> own.contains_key(k) || (k == "group"@ && group is Some)
            &&& group is Some && !own.contains_key("group"@) ==> s.tags.contains_key("group"@)
                && s.tags["group"@] == group->0
        }),
{
    reveal_strlit("counter");
    reveal_strlit("gauge");
    reveal_strlit("rate");
    assert("counter"@.len() == 7 && "gauge"@.len() == 5 && "rate"@.len() == 4);
    let own = http_samples::with_document(Map::empty(), tags);
    let all = metric_sample(name, value, group, tags, metric_type, now).tags;
    assert forall|k: Seq<char>| #[trigger] own.contains_key(k) implies all.contains_key(k)
        && all[k] == own[k] by {}
    assert forall|k: Seq<char>| #[trigger] all.contains_key(k) implies own.contains_key(k) || (k
        == "group"@ && group is Some) by {}
}

/// A metric without tags, or with an empty object of them, passes none; any other
/// text is read.
pub proof fn law_tags_of_a_metric_are_read(text: Seq<char>)
    ensures
        text.len() == 0 || text == "{}"@ ==> declared_tags(metric_tags_text(text)) is None,
        text.len() > 0 && text != "{}"@ ==> declared_tags(metric_tags_text(text))
            == json::json_document(text),
        declared_tags(Some(text)) == json::json_document(text),
        declared_tags(None) is None,
{
}

/// A group that is closed is recorded with the time it took, under the path of the
/// innermost open group, and under its own name where none is open.
pub proof fn law_group_is_recorded(
    open: Seq<Seq<char>>,
    name: Seq<char>,
    duration_ms: Binary64,
    now: u64,
)
    ensures
        ({
            let s = group_sample(open, name, duration_ms, now);
            &&& s.metric == "group_duration"@
            &&& s.value == SampleValue::Number(duration_ms)
            &&& s.sample_type == SampleType::Trend
            &&& s.timestamp == now
            &&& s.tags.contains_key("group"@)
            &&& open.len() > 0 ==> s.tags["group"@] == open[open.len() - 1]
            &&& open.len() == 0 ==> s.tags["group"@] == seq![':', ':'] + name
            &&& forall|k: Seq<char>| #[trigger] s.tags.contains_key(k) ==> k == "group"@
        }),
{
    reveal_strlit("::");
    assert("::"@ =~= seq![':', ':']);
}

/// The groups that are open after groups with these names were opened, each in the
/// one before it.
pub open spec fn opened(names: Seq<Seq<char>>) -> Seq<Seq<char>>
    decreases names.len(),
{
    if names.len() == 0 {
        Seq::empty()
    } else {
        opened(names.drop_last()).push(group_path(opened(names.drop_last()), names.last()))
    }
}

/// The path of a group is the names of the groups around it and its own, from the
/// outermost on, each after two colons.
pub proof fn law_path_lists_the_names(names: Seq<Seq<char>>)
    requires
        names.len() > 0,
    ensures
        current_group(opened(names)) == Some(
            names.map_values(|n: Seq<char>| seq![':', ':'] + n).flatten(),
        ),
        opened(names).len() == names.len(),
    decreases names.len(),
{
    reveal_strlit("::");
    assert("::"@ =~= seq![':', ':']);
    let f = |n: Seq<char>| seq![':', ':'] + n;
    let front = names.drop_last();
    assert(names.map_values(f) =~= front.map_values(f).push(f(names.last())));
    front.map_values(f).lemma_flatten_push(f(names.last()));
    if front.len() > 0 {
        law_path_lists_the_names(front);
        assert(group_path(opened(front), names.last()) =~= opened(front).last() + f(names.last()));
    } else {
        assert(opened(front).len() == 0);
        assert(front.map_values(f) =~= Seq::empty());
        assert(front.map_values(f).flatten() =~= Seq::empty());
        assert(group_path(opened(front), names.last()) =~= front.map_values(f).flatten() + f(
            names.last(),
        ));
    }
}

} // verus!
