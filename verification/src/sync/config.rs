//! How one reminder list is synced.

use crate::filter::{filter_rules, Filter};
use crate::keyed::TextMap;
use crate::task::{copy_tags, Task, TaskView, NO_PRIORITY};
use crate::text::{
    ascii_lowercase, contains_text, copy_opt, has_prefix, integer, opt_text, parse_i32, text_after,
    to_ascii_lower,
};
use vstd::prelude::*;

verus! {

// ---------------------------------------------------------------------------
// Sticky tracking
// ---------------------------------------------------------------------------

/// Whether a tracked task that the push filter no longer admits stays in
/// Reminders.
#[derive(Debug, Clone, Copy, PartialEq, Eq, Structural)]
pub enum StickyTracking {
    /// It stays.
    Always,
    /// It stays until its line is edited.
    Triage,
    /// It goes at once.
    Never,
}

impl Default for StickyTracking {
    fn default() -> (r: Self)
        ensures
            r == StickyTracking::Triage,
    {
        StickyTracking::Triage
    }
}

impl StickyTracking {
    /// The mode that a flag stands for: `true` is `Always`, `false` is `Never`.
    pub fn from_flag(flag: bool) -> (r: Self)
        ensures
            r == (if flag {
                StickyTracking::Always
            } else {
                StickyTracking::Never
            }),
    {
        if flag {
            StickyTracking::Always
        } else {
            StickyTracking::Never
        }
    }

    /// The mode that a name stands for, in upper or lower case; `None` for any
    /// other text.
    pub fn from_name(name: &str) -> (r: Option<Self>)
        ensures
            r == sticky_named(name@),
    {
        let lower = to_ascii_lower(name);
        proof {
            reveal_strlit("always");
            reveal_strlit("triage");
            reveal_strlit("never");
            assert("always"@[0] != "triage"@[0]);
            assert("always"@[0] != "never"@[0]);
            assert("triage"@[0] != "never"@[0]);
        }
        if lower == "always".to_owned() {
            Some(StickyTracking::Always)
        } else if lower == "triage".to_owned() {
            Some(StickyTracking::Triage)
        } else if lower == "never".to_owned() {
            Some(StickyTracking::Never)
        } else {
            None
        }
    }
}

/// The mode that a name stands for.
pub open spec fn sticky_named(name: Seq<char>) -> Option<StickyTracking> {
    let lower = ascii_lowercase(name);
    if lower == "always"@ {
        Some(StickyTracking::Always)
    } else if lower == "triage"@ {
        Some(StickyTracking::Triage)
    } else if lower == "never"@ {
        Some(StickyTracking::Never)
    } else {
        None
    }
}

// ---------------------------------------------------------------------------
// Priorities
// ---------------------------------------------------------------------------

/// What a priority of Reminders looks like in the file.
#[derive(Debug)]
pub enum MappingTarget {
    /// A context: `Context("today")` is `@today`.
    Context(String),
    /// A letter from A to Z, as a number from 0 to 25.
    Priority(u8),
    /// Nothing.
    Nothing,
}

/// What a [`MappingTarget`] says.
#[verifier::ext_equal]
pub enum TargetView {
    Context(Seq<char>),
    Priority(u8),
    Nothing,
}

impl View for MappingTarget {
    type V = TargetView;

    open spec fn view(&self) -> TargetView {
        match *self {
            MappingTarget::Context(c) => TargetView::Context(c@),
            MappingTarget::Priority(p) => TargetView::Priority(p),
            MappingTarget::Nothing => TargetView::Nothing,
        }
    }
}

impl Clone for MappingTarget {
    fn clone(&self) -> (r: Self)
        ensures
            r@ == self@,
    {
        match self {
            MappingTarget::Context(c) => MappingTarget::Context(c.clone()),
            MappingTarget::Priority(p) => MappingTarget::Priority(*p),
            MappingTarget::Nothing => MappingTarget::Nothing,
        }
    }
}

/// The target that a configured text names, or the reason why it names none.
pub open spec fn target_named(s: Seq<char>) -> Result<TargetView, Seq<char>> {
    if ascii_lowercase(s) == "none"@ || s.len() == 0 {
        Ok(TargetView::Nothing)
    } else if "context:"@.is_prefix_of(s) {
        if s.len() == 8 {
            Err("context name must not be empty"@)
        } else {
            Ok(TargetView::Context(s.skip(8)))
        }
    } else if "priority:"@.is_prefix_of(s) {
        if s.len() == 10 && 'A' <= s[9] <= 'Z' {
            Ok(TargetView::Priority(((s[9] as int) - ('A' as int)) as u8))
        } else {
            Err("invalid priority letter in '"@ + s + "': expected A–Z"@)
        }
    } else {
        Err(
            "unrecognised mapping target '"@ + s
                + "': expected 'context:NAME', 'priority:A'–'priority:Z', or 'none'"@,
        )
    }
}

/// The outcome of reading a target, by its content.
pub open spec fn target_outcome(r: Result<MappingTarget, String>) -> Result<
    TargetView,
    Seq<char>,
> {
    match r {
        Ok(t) => Ok(t@),
        Err(e) => Err(e@),
    }
}

impl MappingTarget {
    /// Reads a configured target: `context:NAME`, `priority:A` to `priority:Z`,
    /// or `none`.
    pub fn parse(s: &str) -> (r: Result<Self, String>)
        ensures
            target_outcome(r) == target_named(s@),
    {
        proof {
            reveal_strlit("context:");
            reveal_strlit("priority:");
        }
        if s.is_empty() || to_ascii_lower(s) == "none".to_owned() {
            return Ok(MappingTarget::Nothing);
        }
        if has_prefix(s, "context:") {
            let ctx = text_after(s, 8);
            if ctx.as_str().is_empty() {
                return Err("context name must not be empty".to_owned());
            }
            return Ok(MappingTarget::Context(ctx));
        }
        if has_prefix(s, "priority:") {
            if s.unicode_len() == 10 {
                let c = s.get_char(9);
                if 'A' <= c && c <= 'Z' {
                    let p: u8 = (c as u32 - 'A' as u32) as u8;
                    return Ok(MappingTarget::Priority(p));
                }
            }
            let why = "invalid priority letter in '".to_owned().concat(s).concat(
                "': expected A–Z",
            );
            return Err(why);
        }
        let why = "unrecognised mapping target '".to_owned().concat(s).concat(
            "': expected 'context:NAME', 'priority:A'–'priority:Z', or 'none'",
        );
        Err(why)
    }
}

/// The content of the entries of a priority map.
pub open spec fn targets_view(v: Seq<(i32, MappingTarget)>) -> Seq<(i32, TargetView)> {
    v.map_values(|e: (i32, MappingTarget)| (e.0, e.1@))
}

/// Sorted entries with one more, behind those of the same priority.
pub open spec fn placed(v: Seq<(i32, TargetView)>, e: (i32, TargetView)) -> Seq<(i32, TargetView)>
    decreases v.len(),
{
    if v.len() == 0 || v.last().0 <= e.0 {
        v.push(e)
    } else {
        placed(v.drop_last(), e).push(v.last())
    }
}

/// The entries of a configured priority map, by priority. A pair whose key is no
/// integer, or whose value names no target, is left out.
pub open spec fn mapping_of(pairs: Seq<(Seq<char>, Seq<char>)>) -> Seq<(i32, TargetView)>
    decreases pairs.len(),
{
    if pairs.len() == 0 {
        Seq::empty()
    } else {
        let front = mapping_of(pairs.drop_last());
        match (integer(pairs.last().0), target_named(pairs.last().1)) {
            (Some(n), Ok(t)) => if i32::MIN <= n <= i32::MAX {
                placed(front, (n as i32, t))
            } else {
                front
            },
            _ => front,
        }
    }
}

/// The entries of the default priority map: 9 is `@today`.
pub open spec fn default_mapping() -> Seq<(i32, TargetView)> {
    seq![(9i32, TargetView::Context("today"@))]
}

/// The target of a priority of Reminders: that of the first entry for it.
pub open spec fn target_for(v: Seq<(i32, TargetView)>, p: i32) -> TargetView
    decreases v.len(),
{
    if v.len() == 0 {
        TargetView::Nothing
    } else if v[0].0 == p {
        v[0].1
    } else {
        target_for(v.skip(1), p)
    }
}

/// Whether a task carries a target.
pub open spec fn carries(task: TaskView, target: TargetView) -> bool {
    match target {
        TargetView::Context(c) => task.contexts.contains(c),
        TargetView::Priority(p) => task.priority == p,
        TargetView::Nothing => false,
    }
}

/// The priority in Reminders of a task: that of the first entry whose target it
/// carries, or 0.
pub open spec fn priority_of(v: Seq<(i32, TargetView)>, task: TaskView) -> i32
    decreases v.len(),
{
    if v.len() == 0 {
        0
    } else if carries(task, v[0].1) {
        v[0].0
    } else {
        priority_of(v.skip(1), task)
    }
}

/// The contexts among the targets, in order.
pub open spec fn mapped_contexts(v: Seq<(i32, TargetView)>) -> Seq<Seq<char>>
    decreases v.len(),
{
    if v.len() == 0 {
        Seq::empty()
    } else {
        match v.last().1 {
            TargetView::Context(c) => mapped_contexts(v.drop_last()).push(c),
            _ => mapped_contexts(v.drop_last()),
        }
    }
}

/// The letters among the targets, in order.
pub open spec fn mapped_priorities(v: Seq<(i32, TargetView)>) -> Seq<u8>
    decreases v.len(),
{
    if v.len() == 0 {
        Seq::empty()
    } else {
        match v.last().1 {
            TargetView::Priority(p) => mapped_priorities(v.drop_last()).push(p),
            _ => mapped_priorities(v.drop_last()),
        }
    }
}

/// The entries stand in the order of their priorities, and their letters are A to Z.
pub open spec fn is_mapping(v: Seq<(i32, TargetView)>) -> bool {
    &&& forall|i: int, j: int| 0 <= i <= j < v.len() ==> (#[trigger] v[i]).0 <= (#[trigger] v[j]).0
    &&& forall|i: int| 0 <= i < v.len() ==> ((#[trigger] v[i]).1 matches TargetView::Priority(p)
        ==> p < NO_PRIORITY)
}

/// Placing an entry adds it, and keeps the order.
pub proof fn lemma_placed(v: Seq<(i32, TargetView)>, e: (i32, TargetView))
    requires
        is_mapping(v),
        e.1 matches TargetView::Priority(p) ==> p < NO_PRIORITY,
    ensures
        is_mapping(placed(v, e)),
        placed(v, e).len() == v.len() + 1,
        forall|x: (i32, TargetView)| #[trigger] placed(v, e).contains(x) <==> v.contains(x) || x == e,
    decreases v.len(),
{
    let w = placed(v, e);
    if v.len() == 0 || v.last().0 <= e.0 {
        assert forall|x: (i32, TargetView)| #[trigger] w.contains(x) <==> v.contains(x) || x == e by {
            assert(w[v.len() as int] == e);
            if v.contains(x) {
                let i = v.index_of(x);
                assert(w[i] == x);
            }
        }
    } else {
        let front = v.drop_last();
        assert(is_mapping(front));
        lemma_placed(front, e);
        let pf = placed(front, e);
        assert(w == pf.push(v.last()));
        assert forall|i: int, j: int| 0 <= i <= j < w.len() implies (#[trigger] w[i]).0 <= (
        #[trigger] w[j]).0 by {
            if j == w.len() - 1 && i < j {
                assert(pf.contains(pf[i]));
                if front.contains(pf[i]) {
                    let k = front.index_of(pf[i]);
                    assert(v[k].0 <= v[v.len() - 1].0);
                }
            }
        }
        assert forall|x: (i32, TargetView)| #[trigger] w.contains(x) <==> v.contains(x) || x == e by {
            if w.contains(x) {
                let i = w.index_of(x);
                if i < pf.len() {
                    assert(pf.contains(x));
                    if front.contains(x) {
                        let k = front.index_of(x);
                        assert(v[k] == x);
                    }
                }
            }
            if v.contains(x) {
                let i = v.index_of(x);
                if i < front.len() {
                    assert(front[i] == x);
                    assert(pf.contains(x));
                    let k = pf.index_of(x);
                    assert(w[k] == x);
                } else {
                    assert(w[pf.len() as int] == x);
                }
            }
            if x == e {
                assert(pf.contains(e));
                let k = pf.index_of(e);
                assert(w[k] == e);
            }
        }
    }
}

/// The priorities of one list in both directions.
#[derive(Debug)]
pub struct PriorityMap {
    entries: Vec<(i32, MappingTarget)>,
}

impl View for PriorityMap {
    type V = Seq<(i32, TargetView)>;

    closed spec fn view(&self) -> Seq<(i32, TargetView)> {
        targets_view(self.entries@)
    }
}

impl Default for PriorityMap {
    fn default() -> (r: Self)
        ensures
            r@ == default_mapping(),
    {
        let mut entries: Vec<(i32, MappingTarget)> = Vec::new();
        entries.push((9, MappingTarget::Context("today".to_owned())));
        assert(targets_view(entries@) =~= default_mapping());
        PriorityMap { entries }
    }
}

impl PriorityMap {
    #[verifier::type_invariant]
    spec fn in_order(self) -> bool {
        is_mapping(targets_view(self.entries@))
    }

    /// The map that a configured table describes; entries that cannot be read
    /// are left out.
    pub fn from_config(map: &TextMap<String>) -> (r: Self)
        ensures
            r@ == mapping_of(map.pairs()),
            is_mapping(r@),
    {
        let n: usize = map.len();
        let mut entries: Vec<(i32, MappingTarget)> = Vec::new();
        assert(targets_view(entries@) =~= mapping_of(map.pairs().take(0)));
        for i in 0..n
            invariant
                n == map.pairs().len(),
                targets_view(entries@) == mapping_of(map.pairs().take(i as int)),
                is_mapping(targets_view(entries@)),
        {
            let ghost more = map.pairs().take(i + 1);
            assert(more.drop_last() =~= map.pairs().take(i as int));
            assert(more.last() == map.pairs()[i as int]);
            let key = parse_i32(map.key_at(i).as_str());
            let target = MappingTarget::parse(map.value_at(i).as_str());
            if let (Some(p), Ok(t)) = (key, target) {
                let ghost e = (p, t@);
                let ghost before = targets_view(entries@);
                let mut at: usize = entries.len();
                assert(before.take(at as int) =~= before);
                let ghost tail: Seq<(i32, TargetView)> = Seq::empty();
                assert(before.skip(at as int) =~= Seq::<(i32, TargetView)>::empty());
                assert(placed(before.take(at as int), e) + before.skip(at as int) =~= placed(
                    before,
                    e,
                ));
                while at > 0 && entries[at - 1].0 > p
                    invariant
                        at <= entries@.len(),
                        before == targets_view(entries@),
                        e.0 == p,
                        placed(before.take(at as int), e) + before.skip(at as int) == placed(
                            before,
                            e,
                        ),
                    decreases at,
                {
                    let ghost head = before.take(at as int);
                    assert(head.last() == before[at - 1]);
                    assert(head.drop_last() =~= before.take(at - 1));
                    assert(placed(before.take(at - 1), e) + before.skip(at - 1) =~= placed(head, e)
                        + before.skip(at as int));
                    at = at - 1;
                }
                entries.insert(at, (p, t));
                proof {
                    let head = before.take(at as int);
                    assert(at > 0 ==> head.last() == before[at - 1]);
                    assert(placed(head, e) == head.push(e));
                    assert(targets_view(entries@) =~= head.push(e) + before.skip(at as int));
                    lemma_placed(before, e);
                }
            }
        }
        assert(map.pairs().take(n as int) =~= map.pairs());
        PriorityMap { entries }
    }

    /// What a priority of Reminders looks like in the file.
    pub fn reminders_to_task(&self, reminders_priority: i32) -> (r: &MappingTarget)
        ensures
            r@ == target_for(self@, reminders_priority),
            r@ matches TargetView::Priority(p) ==> p < NO_PRIORITY,
    {
        proof {
            use_type_invariant(self);
        }
        assert(self@.skip(0) =~= self@);
        for i in 0..self.entries.len()
            invariant
                target_for(self@.skip(i as int), reminders_priority) == target_for(
                    self@,
                    reminders_priority,
                ),
                is_mapping(self@),
        {
            assert(self@[i as int] == (self.entries@[i as int].0, self.entries@[i as int].1@));
            assert(self@.skip(i as int).skip(1) =~= self@.skip(i + 1));
            if self.entries[i].0 == reminders_priority {
                return &self.entries[i].1;
            }
        }
        &MappingTarget::Nothing
    }

    /// The priority in Reminders of a task.
    pub fn task_to_reminders(&self, task: &Task) -> (r: i32)
        ensures
            r == priority_of(self@, task@),
    {
        assert(self@.skip(0) =~= self@);
        for i in 0..self.entries.len()
            invariant
                priority_of(self@.skip(i as int), task@) == priority_of(self@, task@),
        {
            assert(self@[i as int] == (self.entries@[i as int].0, self.entries@[i as int].1@));
            assert(self@.skip(i as int).skip(1) =~= self@.skip(i + 1));
            let hit: bool = match &self.entries[i].1 {
                MappingTarget::Context(ctx) => contains_text(&task.contexts, ctx),
                MappingTarget::Priority(p) => task.priority == *p,
                MappingTarget::Nothing => false,
            };
            if hit {
                return self.entries[i].0;
            }
        }
        0
    }

    /// All contexts that the map can produce.
    pub fn all_mapped_contexts(&self) -> (r: Vec<&str>)
        ensures
            r@.map_values(|s: &str| s@) == mapped_contexts(self@),
    {
        let mut out: Vec<&str> = Vec::new();
        assert(out@.map_values(|s: &str| s@) =~= mapped_contexts(self@.take(0)));
        for i in 0..self.entries.len()
            invariant
                out@.map_values(|s: &str| s@) == mapped_contexts(self@.take(i as int)),
        {
            assert(self@[i as int] == (self.entries@[i as int].0, self.entries@[i as int].1@));
            assert(self@.take(i + 1).drop_last() =~= self@.take(i as int));
            assert(self@.take(i + 1).last() == self@[i as int]);
            let ghost before = out@.map_values(|s: &str| s@);
            if let MappingTarget::Context(ctx) = &self.entries[i].1 {
                out.push(ctx.as_str());
                assert(out@.map_values(|s: &str| s@) =~= before.push(ctx@));
            }
        }
        assert(self@.take(self@.len() as int) =~= self@);
        out
    }

    /// All letters that the map can produce.
    pub fn all_mapped_priorities(&self) -> (r: Vec<u8>)
        ensures
            r@ == mapped_priorities(self@),
    {
        let mut out: Vec<u8> = Vec::new();
        assert(out@ =~= mapped_priorities(self@.take(0)));
        for i in 0..self.entries.len()
            invariant
                out@ == mapped_priorities(self@.take(i as int)),
        {
            assert(self@[i as int] == (self.entries@[i as int].0, self.entries@[i as int].1@));
            assert(self@.take(i + 1).drop_last() =~= self@.take(i as int));
            assert(self@.take(i + 1).last() == self@[i as int]);
            if let MappingTarget::Priority(p) = &self.entries[i].1 {
                out.push(*p);
            }
        }
        assert(self@.take(self@.len() as int) =~= self@);
        out
    }
}

// ---------------------------------------------------------------------------
// Lists
// ---------------------------------------------------------------------------

/// Which fields of a reminder may overwrite the task. Where a field may not, the
/// file has the say: the task's value is pushed back to the reminder.
#[derive(Debug, Clone, Copy, PartialEq, Eq, Structural)]
pub struct WritebackConfig {
    pub title: bool,
    pub due_date: bool,
    pub priority: bool,
    /// Completion and the date of completion.
    pub is_completed: bool,
}

impl Default for WritebackConfig {
    fn default() -> (r: Self)
        ensures
            r == (WritebackConfig { title: true, due_date: true, priority: true, is_completed: true }),
    {
        WritebackConfig { title: true, due_date: true, priority: true, is_completed: true }
    }
}

/// How one reminder list is synced with the file.
#[derive(Debug)]
pub struct ListSyncConfig {
    /// The name of the list.
    pub reminders_list: String,
    /// The context that tasks imported from the list get. Where no push filter
    /// is set, only tasks with this context are pushed.
    pub auto_context: Option<String>,
    /// Which tasks are pushed to the list.
    pub push_filter: Option<String>,
    pub sticky_tracking: StickyTracking,
    /// Whether reminders that are completed when they are first seen become tasks.
    pub sync_initial_completed: bool,
    /// What the priorities of Reminders look like in the file.
    pub priority_map: Option<TextMap<String>>,
    pub writeback: WritebackConfig,
}

/// What a [`ListSyncConfig`] holds.
#[verifier::ext_equal]
pub struct ConfigView {
    pub reminders_list: Seq<char>,
    pub auto_context: Option<Seq<char>>,
    pub push_filter: Option<Seq<char>>,
    pub sticky_tracking: StickyTracking,
    pub sync_initial_completed: bool,
    pub mapping: Seq<(i32, TargetView)>,
    pub writeback: WritebackConfig,
}

/// The priority map that a configured table stands for.
pub open spec fn configured_mapping(map: Option<TextMap<String>>) -> Seq<(i32, TargetView)> {
    match map {
        Some(m) => mapping_of(m.pairs()),
        None => default_mapping(),
    }
}

impl View for ListSyncConfig {
    type V = ConfigView;

    open spec fn view(&self) -> ConfigView {
        ConfigView {
            reminders_list: self.reminders_list@,
            auto_context: opt_text(self.auto_context),
            push_filter: opt_text(self.push_filter),
            sticky_tracking: self.sticky_tracking,
            sync_initial_completed: self.sync_initial_completed,
            mapping: configured_mapping(self.priority_map),
            writeback: self.writeback,
        }
    }
}

impl Clone for ListSyncConfig {
    fn clone(&self) -> (r: Self)
        ensures
            r@ == self@,
    {
        ListSyncConfig {
            reminders_list: self.reminders_list.clone(),
            auto_context: copy_opt(&self.auto_context),
            push_filter: copy_opt(&self.push_filter),
            sticky_tracking: self.sticky_tracking,
            sync_initial_completed: self.sync_initial_completed,
            priority_map: match &self.priority_map {
                Some(m) => Some(copy_tags(m)),
                None => None,
            },
            writeback: self.writeback,
        }
    }
}

impl Default for ListSyncConfig {
    fn default() -> (r: Self)
        ensures
            r@ == default_config(Seq::empty()),
    {
        ListSyncConfig {
            reminders_list: String::new(),
            auto_context: None,
            push_filter: None,
            sticky_tracking: StickyTracking::Triage,
            sync_initial_completed: false,
            priority_map: None,
            writeback: WritebackConfig {
                title: true,
                due_date: true,
                priority: true,
                is_completed: true,
            },
        }
    }
}

/// The configuration of a list of which nothing but the name is set.
pub open spec fn default_config(list: Seq<char>) -> ConfigView {
    ConfigView {
        reminders_list: list,
        auto_context: None,
        push_filter: None,
        sticky_tracking: StickyTracking::Triage,
        sync_initial_completed: false,
        mapping: default_mapping(),
        writeback: WritebackConfig { title: true, due_date: true, priority: true, is_completed: true },
    }
}

impl ListSyncConfig {
    /// The configuration of a list of which nothing but the name is set.
    pub fn new(reminders_list: &str) -> (r: Self)
        ensures
            r@ == default_config(reminders_list@),
    {
        let mut r = ListSyncConfig::default();
        r.reminders_list = reminders_list.to_owned();
        r
    }

    /// This configuration with a context for imported tasks.
    pub fn with_auto_context(self, ctx: &str) -> (r: Self)
        ensures
            r@ == (ConfigView { auto_context: Some(ctx@), ..self@ }),
    {
        let mut r = self;
        r.auto_context = Some(ctx.to_owned());
        r
    }

    /// This configuration with rights to overwrite the task's fields.
    pub fn with_writeback(self, wb: WritebackConfig) -> (r: Self)
        ensures
            r@ == (ConfigView { writeback: wb, ..self@ }),
    {
        let mut r = self;
        r.writeback = wb;
        r
    }

    /// The push filter, where one is set.
    pub fn compiled_push_filter(&self) -> (r: Option<Filter>)
        ensures
            match self@.push_filter {
                Some(s) => r matches Some(f) && f@ == filter_rules(s),
                None => r is None,
            },
    {
        match &self.push_filter {
            Some(s) => Some(Filter::parse(s.as_str())),
            None => None,
        }
    }

    /// The priority map.
    pub fn compiled_priority_map(&self) -> (r: PriorityMap)
        ensures
            r@ == self@.mapping,
    {
        match &self.priority_map {
            Some(map) => PriorityMap::from_config(map),
            None => PriorityMap::default(),
        }
    }
}

} // verus!
