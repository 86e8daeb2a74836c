//! Desktop entries: reading `.desktop` files into an app-id map, and
//! resolving an app id to its icon and desktop actions.
use vstd::prelude::*;
use vstd::string::StrSliceExecFns;
use vstd::utf8::encode_utf8;
use vstd::utf8::encode_scalar;

use crate::keyed::{keys_unique, lemma_pairs_absent, lemma_pairs_lookup, lemma_pairs_push, lemma_pairs_update, pairs_map};
use crate::text::{
    after_last, after_last_start, ascii_lower, ascii_lower_char, chars_of, contains_char,
    file_stem, find_char, has_prefix, is_ascii_chars, lemma_after_last_of_split, lemma_ascii_lower_after_last_slash,
    lemma_first_index_of, lines_spec, lowercase, opt_view, path_file_stem, span_has_prefix,
    spans_equal, split_spec, string_of_span, strip_cr, to_lowercase, trim_span, trim_spec,
};

verus! {

/// One `[Desktop Action ...]` of a desktop entry.
#[derive(Debug, PartialEq, Eq)]
pub struct DesktopAction {
    pub name: String,
    pub command: String,
}

/// The characters of a desktop action's fields.
pub struct DesktopActionView {
    pub name: Seq<char>,
    pub command: Seq<char>,
}

impl View for DesktopAction {
    type V = DesktopActionView;

    open spec fn view(&self) -> DesktopActionView {
        DesktopActionView { name: self.name@, command: self.command@ }
    }
}

impl Clone for DesktopAction {
    fn clone(&self) -> (r: Self)
        ensures
            r@ == self@,
    {
        DesktopAction { name: self.name.clone(), command: self.command.clone() }
    }
}

/// What the applet knows of an application: its icon name, its main
/// command and the desktop actions it lists.
#[derive(Debug)]
pub struct AppInfo {
    pub icon: String,
    pub main_exec: Option<String>,
    pub actions: Vec<DesktopAction>,
}

/// The characters of an [`AppInfo`]'s fields.
pub struct AppInfoView {
    pub icon: Seq<char>,
    pub main_exec: Option<Seq<char>>,
    pub actions: Seq<DesktopActionView>,
}

pub open spec fn actions_view(actions: Seq<DesktopAction>) -> Seq<DesktopActionView> {
    actions.map_values(|a: DesktopAction| a@)
}

impl View for AppInfo {
    type V = AppInfoView;

    open spec fn view(&self) -> AppInfoView {
        AppInfoView {
            icon: self.icon@,
            main_exec: opt_view(self.main_exec),
            actions: actions_view(self.actions@),
        }
    }
}

/// A copy of `actions`, element by element.
pub fn clone_actions(actions: &Vec<DesktopAction>) -> (r: Vec<DesktopAction>)
    ensures
        actions_view(r@) == actions_view(actions@),
{
    let mut r: Vec<DesktopAction> = Vec::new();
    let mut i: usize = 0;
    while i < actions.len()
        invariant
            i <= actions@.len(),
            r@.len() == i,
            forall|k: int| 0 <= k < i ==> #[trigger] r@[k]@ == actions@[k]@,
        decreases actions@.len() - i,
    {
        r.push(actions[i].clone());
        i = i + 1;
    }
    assert(actions_view(r@) =~= actions_view(actions@));
    r
}

impl Clone for AppInfo {
    fn clone(&self) -> (r: Self)
        ensures
            r@ == self@,
    {
        let main_exec = match &self.main_exec {
            Some(e) => Some(e.clone()),
            None => None,
        };
        AppInfo { icon: self.icon.clone(), main_exec, actions: clone_actions(&self.actions) }
    }
}

impl Default for AppInfo {
    fn default() -> (r: Self)
        ensures
            r@ == (AppInfoView { icon: seq![], main_exec: None, actions: seq![] }),
    {
        let r = AppInfo { icon: String::new(), main_exec: None, actions: Vec::new() };
        assert(r@.actions =~= Seq::<DesktopActionView>::empty());
        r
    }
}

/// One key of an [`AppMap`] with its application.
#[derive(Debug)]
struct AppMapEntry {
    key: String,
    info: AppInfo,
}

/// Applications by lowercase app id or window class.
#[derive(Debug)]
pub struct AppMap {
    entries: Vec<AppMapEntry>,
}

impl AppMap {
    /// The (key, application) pairs, in the order they were first added.
    pub closed spec fn pairs(&self) -> Seq<(Seq<char>, AppInfoView)> {
        self.entries@.map_values(|e: AppMapEntry| (e.key@, e.info@))
    }

    /// No key occurs twice.
    pub closed spec fn wf(&self) -> bool {
        keys_unique(self.pairs())
    }

    /// An empty map.
    pub fn new() -> (m: AppMap)
        ensures
            m.wf(),
            m@ == Map::<Seq<char>, AppInfoView>::empty(),
    {
        let m = AppMap { entries: Vec::new() };
        assert(m.pairs() =~= Seq::<(Seq<char>, AppInfoView)>::empty());
        assert(m@ =~= Map::<Seq<char>, AppInfoView>::empty());
        m
    }

    /// The position of the entry with key `key`, if there is one.
    fn find(&self, key: &String) -> (r: Option<usize>)
        requires
            self.wf(),
        ensures
            match r {
                Some(i) => i < self.entries@.len() && self.pairs()[i as int].0 == key@,
                None => forall|i: int|
                    0 <= i < self.pairs().len() ==> #[trigger] self.pairs()[i].0 != key@,
            },
    {
        let mut i: usize = 0;
        while i < self.entries.len()
            invariant
                i <= self.entries@.len(),
                forall|k: int| 0 <= k < i ==> #[trigger] self.pairs()[k].0 != key@,
            decreases self.entries@.len() - i,
        {
            if self.entries[i].key == *key {
                return Some(i);
            }
            i = i + 1;
        }
        None
    }

    /// The application stored under `key`.
    pub fn get(&self, key: &String) -> (r: Option<&AppInfo>)
        requires
            self.wf(),
        ensures
            match r {
                Some(info) => self@.contains_key(key@) && info@ == self@[key@],
                None => !self@.contains_key(key@),
            },
    {
        match self.find(key) {
            Some(i) => {
                proof {
                    lemma_pairs_lookup(self.pairs(), i as int);
                }
                Some(&self.entries[i].info)
            },
            None => {
                proof {
                    lemma_pairs_absent(self.pairs(), key@);
                }
                None
            },
        }
    }

    /// Stores `info` under `key`, replacing what was stored there.
    pub fn insert(&mut self, key: String, info: AppInfo)
        requires
            old(self).wf(),
        ensures
            final(self).wf(),
            final(self)@ == old(self)@.insert(key@, info@),
    {
        let ghost k = key@;
        let ghost v = info@;
        match self.find(&key) {
            Some(i) => {
                proof {
                    lemma_pairs_update(self.pairs(), i as int, v);
                }
                let ghost old_entries = self.entries@;
                self.entries.set(i, AppMapEntry { key, info });
                assert(self.pairs() =~= self.view_pairs_update(old_entries, i as int, k, v));
            },
            None => {
                proof {
                    lemma_pairs_push(self.pairs(), k, v);
                }
                let ghost old_pairs = self.pairs();
                self.entries.push(AppMapEntry { key, info });
                assert(self.pairs() =~= old_pairs.push((k, v)));
            },
        }
    }

    spec fn view_pairs_update(
        &self,
        entries: Seq<AppMapEntry>,
        i: int,
        k: Seq<char>,
        v: AppInfoView,
    ) -> Seq<(Seq<char>, AppInfoView)> {
        entries.map_values(|e: AppMapEntry| (e.key@, e.info@)).update(i, (k, v))
    }
}

impl Clone for AppMap {
    fn clone(&self) -> (r: Self)
        ensures
            r@ == self@,
            self.wf() ==> r.wf(),
    {
        let mut entries: Vec<AppMapEntry> = Vec::new();
        let mut i: usize = 0;
        while i < self.entries.len()
            invariant
                i <= self.entries@.len(),
                entries@.map_values(|e: AppMapEntry| (e.key@, e.info@)) == self.pairs().take(i as int),
            decreases self.entries@.len() - i,
        {
            let e = &self.entries[i];
            let ghost before = entries@.map_values(|e: AppMapEntry| (e.key@, e.info@));
            entries.push(AppMapEntry { key: e.key.clone(), info: e.info.clone() });
            assert(entries@.map_values(|e: AppMapEntry| (e.key@, e.info@)) =~= before.push(
                self.pairs()[i as int],
            ));
            assert(self.pairs().take(i + 1) =~= self.pairs().take(i as int).push(self.pairs()[i as int]));
            i = i + 1;
        }
        assert(self.pairs().take(self.entries@.len() as int) =~= self.pairs());
        let r = AppMap { entries };
        assert(r.pairs() == self.pairs());
        r
    }
}

impl View for AppMap {
    type V = Map<Seq<char>, AppInfoView>;

    closed spec fn view(&self) -> Map<Seq<char>, AppInfoView> {
        pairs_map(self.pairs())
    }
}


// ---------------------------------------------------------------------
// Reading a desktop entry
// ---------------------------------------------------------------------
/// What the reader has gathered after some lines of a desktop entry.
pub struct EntryScan {
    pub icon: Option<Seq<char>>,
    pub wm_class: Option<Seq<char>>,
    pub main_exec: Option<Seq<char>>,
    pub actions_list: Option<Seq<char>>,
    pub blocks: Map<Seq<char>, DesktopActionView>,
    /// The id of the `[Desktop Action ...]` group being read, if any.
    pub current: Option<Seq<char>>,
}

/// Before the first line.
pub open spec fn initial_scan() -> EntryScan {
    EntryScan {
        icon: None,
        wm_class: None,
        main_exec: None,
        actions_list: None,
        blocks: Map::empty(),
        current: None,
    }
}

pub open spec fn empty_action() -> DesktopActionView {
    DesktopActionView { name: seq![], command: seq![] }
}

/// One (trimmed) line of a desktop entry.
pub open spec fn scan_line(st: EntryScan, line: Seq<char>) -> EntryScan {
    if has_prefix(line, "[Desktop Entry]"@) {
        EntryScan { current: None, ..st }
    } else if has_prefix(line, "[Desktop Action "@) && line.len() > 0 && line.last() == ']' {
        let id = line.subrange(16, line.len() - 1);
        EntryScan { current: Some(id), blocks: st.blocks.insert(id, empty_action()), ..st }
    } else if st.current is None {
        if has_prefix(line, "Icon="@) {
            EntryScan { icon: Some(trim_spec(line.skip(5))), ..st }
        } else if has_prefix(line, "StartupWMClass="@) {
            EntryScan { wm_class: Some(trim_spec(line.skip(15))), ..st }
        } else if has_prefix(line, "Actions="@) {
            EntryScan { actions_list: Some(trim_spec(line.skip(8))), ..st }
        } else if has_prefix(line, "Exec="@) {
            EntryScan { main_exec: Some(trim_spec(line.skip(5))), ..st }
        } else {
            st
        }
    } else {
        let id = st.current->0;
        if st.blocks.contains_key(id) {
            let a = st.blocks[id];
            if has_prefix(line, "Name="@) {
                EntryScan {
                    blocks: st.blocks.insert(
                        id,
                        DesktopActionView { name: trim_spec(line.skip(5)), command: a.command },
                    ),
                    ..st
                }
            } else if has_prefix(line, "Exec="@) {
                EntryScan {
                    blocks: st.blocks.insert(
                        id,
                        DesktopActionView { name: a.name, command: trim_spec(line.skip(5)) },
                    ),
                    ..st
                }
            } else {
                st
            }
        } else {
            st
        }
    }
}

/// The remaining `lines`, each trimmed, read from `st` on.
pub open spec fn scan_lines(st: EntryScan, lines: Seq<Seq<char>>) -> EntryScan
    decreases lines.len(),
{
    if lines.len() == 0 {
        st
    } else {
        scan_lines(scan_line(st, trim_spec(lines[0])), lines.drop_first())
    }
}

/// All lines of `content`.
pub open spec fn scan_entry(content: Seq<char>) -> EntryScan {
    scan_lines(initial_scan(), lines_spec(content))
}

/// The action that the id `id` of an `Actions=` list stands for: the
/// group with that id, where it has both a name and a command.
pub open spec fn listed_action(
    blocks: Map<Seq<char>, DesktopActionView>,
    id: Seq<char>,
) -> Seq<DesktopActionView> {
    if id.len() > 0 && blocks.contains_key(id) && blocks[id].name.len() > 0
        && blocks[id].command.len() > 0 {
        seq![blocks[id]]
    } else {
        seq![]
    }
}

/// The actions that the pieces of an `Actions=` list stand for, in order.
pub open spec fn listed_actions(
    pieces: Seq<Seq<char>>,
    blocks: Map<Seq<char>, DesktopActionView>,
) -> Seq<DesktopActionView>
    decreases pieces.len(),
{
    if pieces.len() == 0 {
        seq![]
    } else {
        listed_action(blocks, trim_spec(pieces[0])) + listed_actions(pieces.drop_first(), blocks)
    }
}

/// The actions of a read entry.
pub open spec fn entry_actions(sc: EntryScan) -> Seq<DesktopActionView> {
    match sc.actions_list {
        Some(l) => listed_actions(split_spec(l, ';'), sc.blocks),
        None => seq![],
    }
}

/// The application that a desktop entry describes; `None` without `Icon=`.
pub open spec fn entry_app_info(content: Seq<char>) -> Option<AppInfoView> {
    let sc = scan_entry(content);
    match sc.icon {
        Some(i) => Some(AppInfoView { icon: i, main_exec: sc.main_exec, actions: entry_actions(sc) }),
        None => None,
    }
}

/// The file stem of `path`, empty where it has none.
pub open spec fn stem_or_empty(path: Seq<char>) -> Seq<char> {
    match path_file_stem(path) {
        Some(s) => s,
        None => seq![],
    }
}

/// `map` after reading the desktop entry `content` found at `path`: an
/// entry with an icon is stored under its lowercase `StartupWMClass` (if
/// any) and then under its lowercase file stem.
pub open spec fn desktop_entry_update(
    map: Map<Seq<char>, AppInfoView>,
    path: Seq<char>,
    content: Seq<char>,
) -> Map<Seq<char>, AppInfoView> {
    match entry_app_info(content) {
        None => map,
        Some(info) => {
            let with_class = match scan_entry(content).wm_class {
                Some(w) => map.insert(lowercase(w), info),
                None => map,
            };
            with_class.insert(lowercase(stem_or_empty(path)), info)
        },
    }
}

/// A range `start..end` of the entry's characters.
#[derive(Clone, Copy)]
struct Span {
    start: usize,
    end: usize,
}

spec fn span_text(cs: Seq<char>, sp: Span) -> Seq<char> {
    cs.subrange(sp.start as int, sp.end as int)
}

spec fn span_ok(cs: Seq<char>, sp: Span) -> bool {
    sp.start <= sp.end <= cs.len()
}

spec fn opt_span_ok(cs: Seq<char>, o: Option<Span>) -> bool {
    match o {
        Some(sp) => span_ok(cs, sp),
        None => true,
    }
}

spec fn opt_span_text(cs: Seq<char>, o: Option<Span>) -> Option<Seq<char>> {
    match o {
        Some(sp) => Some(span_text(cs, sp)),
        None => None,
    }
}

/// A `[Desktop Action ...]` group: its id, name and command.
#[derive(Clone, Copy)]
struct ActionBlock {
    id: Span,
    name: Span,
    command: Span,
}

spec fn block_pair(cs: Seq<char>, b: ActionBlock) -> (Seq<char>, DesktopActionView) {
    (span_text(cs, b.id), DesktopActionView { name: span_text(cs, b.name), command: span_text(cs, b.command) })
}

spec fn block_pairs(cs: Seq<char>, blocks: Seq<ActionBlock>) -> Seq<(Seq<char>, DesktopActionView)> {
    blocks.map_values(|b: ActionBlock| block_pair(cs, b))
}

/// The reader's state, as spans of the entry's characters.
struct ScanState {
    icon: Option<Span>,
    wm_class: Option<Span>,
    main_exec: Option<Span>,
    actions_list: Option<Span>,
    blocks: Vec<ActionBlock>,
    current: Option<usize>,
}

impl ScanState {
    spec fn wf(&self, cs: Seq<char>) -> bool {
        &&& opt_span_ok(cs, self.icon)
        &&& opt_span_ok(cs, self.wm_class)
        &&& opt_span_ok(cs, self.main_exec)
        &&& opt_span_ok(cs, self.actions_list)
        &&& forall|i: int|
            0 <= i < self.blocks@.len() ==> {
                &&& span_ok(cs, #[trigger] self.blocks@[i].id)
                &&& span_ok(cs, self.blocks@[i].name)
                &&& span_ok(cs, self.blocks@[i].command)
            }
        &&& keys_unique(block_pairs(cs, self.blocks@))
        &&& match self.current {
            Some(i) => i < self.blocks@.len(),
            None => true,
        }
    }

    spec fn abs(&self, cs: Seq<char>) -> EntryScan {
        EntryScan {
            icon: opt_span_text(cs, self.icon),
            wm_class: opt_span_text(cs, self.wm_class),
            main_exec: opt_span_text(cs, self.main_exec),
            actions_list: opt_span_text(cs, self.actions_list),
            blocks: pairs_map(block_pairs(cs, self.blocks@)),
            current: match self.current {
                Some(i) => Some(span_text(cs, self.blocks@[i as int].id)),
                None => None,
            },
        }
    }
}

/// The position of the group whose id is `cs[a..b]`, if there is one.
fn find_block(blocks: &Vec<ActionBlock>, cs: &Vec<char>, a: usize, b: usize) -> (r: Option<usize>)
    requires
        a <= b <= cs@.len(),
        forall|i: int| 0 <= i < blocks@.len() ==> span_ok(cs@, #[trigger] blocks@[i].id),
    ensures
        match r {
            Some(i) => i < blocks@.len() && block_pairs(cs@, blocks@)[i as int].0 == cs@.subrange(
                a as int,
                b as int,
            ),
            None => forall|i: int|
                0 <= i < blocks@.len() ==> #[trigger] block_pairs(cs@, blocks@)[i].0
                    != cs@.subrange(a as int, b as int),
        },
{
    let mut i: usize = 0;
    while i < blocks.len()
        invariant
            a <= b <= cs@.len(),
            i <= blocks@.len(),
            forall|j: int| 0 <= j < blocks@.len() ==> span_ok(cs@, #[trigger] blocks@[j].id),
            forall|j: int|
                0 <= j < i ==> #[trigger] block_pairs(cs@, blocks@)[j].0 != cs@.subrange(
                    a as int,
                    b as int,
                ),
        decreases blocks@.len() - i,
    {
        let blk = blocks[i];
        if spans_equal(cs, blk.id.start, blk.id.end, a, b) {
            return Some(i);
        }
        i = i + 1;
    }
    None
}

/// Reads the trimmed line `cs[start..end]` into `st`.
#[verifier::spinoff_prover]
#[verifier::rlimit(40)]
fn scan_one_line(st: &mut ScanState, cs: &Vec<char>, start: usize, end: usize)
    requires
        start <= end <= cs@.len(),
        old(st).wf(cs@),
    ensures
        final(st).wf(cs@),
        final(st).abs(cs@) == scan_line(old(st).abs(cs@), cs@.subrange(start as int, end as int)),
{
    let ghost line = cs@.subrange(start as int, end as int);
    let ghost old_abs = st.abs(cs@);
    if span_has_prefix(cs, start, end, "[Desktop Entry]") {
        st.current = None;
        return;
    }
    if span_has_prefix(cs, start, end, "[Desktop Action ") && end > start && cs[end - 1] == ']' {
        proof {
            reveal_strlit("[Desktop Action ");
            assert(line.take(16)[15] == ' ');
            assert(line[15] == ' ');
        }
        let a = start + 16;
        let b = end - 1;
        assert(line.subrange(16, line.len() - 1) =~= cs@.subrange(a as int, b as int));
        let empty = Span { start: 0, end: 0 };
        assert(span_text(cs@, empty) =~= Seq::<char>::empty());
        let ghost pairs = block_pairs(cs@, st.blocks@);
        match find_block(&st.blocks, cs, a, b) {
            Some(i) => {
                let old_id = st.blocks[i].id;
                let nb = ActionBlock { id: old_id, name: empty, command: empty };
                proof {
                    lemma_pairs_update(pairs, i as int, empty_action());
                }
                st.blocks.set(i, nb);
                assert(block_pairs(cs@, st.blocks@) =~= pairs.update(
                    i as int,
                    (pairs[i as int].0, empty_action()),
                ));
                st.current = Some(i);
            },
            None => {
                let nb = ActionBlock { id: Span { start: a, end: b }, name: empty, command: empty };
                proof {
                    lemma_pairs_push(pairs, cs@.subrange(a as int, b as int), empty_action());
                }
                st.blocks.push(nb);
                assert(block_pairs(cs@, st.blocks@) =~= pairs.push(
                    (cs@.subrange(a as int, b as int), empty_action()),
                ));
                st.current = Some(st.blocks.len() - 1);
            },
        }
        assert(st.abs(cs@).blocks == old_abs.blocks.insert(line.subrange(16, line.len() - 1), empty_action()));
        return;
    }
    match st.current {
        None => {
            if span_has_prefix(cs, start, end, "Icon=") {
                proof { reveal_strlit("Icon="); }
                assert(line.skip(5) =~= cs@.subrange(start + 5, end as int));
                let (a, b) = trim_span(cs, start + 5, end);
                st.icon = Some(Span { start: a, end: b });
            } else if span_has_prefix(cs, start, end, "StartupWMClass=") {
                proof { reveal_strlit("StartupWMClass="); }
                assert(line.skip(15) =~= cs@.subrange(start + 15, end as int));
                let (a, b) = trim_span(cs, start + 15, end);
                st.wm_class = Some(Span { start: a, end: b });
            } else if span_has_prefix(cs, start, end, "Actions=") {
                proof { reveal_strlit("Actions="); }
                assert(line.skip(8) =~= cs@.subrange(start + 8, end as int));
                let (a, b) = trim_span(cs, start + 8, end);
                st.actions_list = Some(Span { start: a, end: b });
            } else if span_has_prefix(cs, start, end, "Exec=") {
                proof { reveal_strlit("Exec="); }
                assert(line.skip(5) =~= cs@.subrange(start + 5, end as int));
                let (a, b) = trim_span(cs, start + 5, end);
                st.main_exec = Some(Span { start: a, end: b });
            }
        },
        Some(i) => {
            let ghost pairs = block_pairs(cs@, st.blocks@);
            proof {
                lemma_pairs_lookup(pairs, i as int);
            }
            let blk = st.blocks[i];
            if span_has_prefix(cs, start, end, "Name=") {
                proof { reveal_strlit("Name="); }
                assert(line.skip(5) =~= cs@.subrange(start + 5, end as int));
                let (a, b) = trim_span(cs, start + 5, end);
                let nb = ActionBlock { id: blk.id, name: Span { start: a, end: b }, command: blk.command };
                let ghost v = DesktopActionView { name: span_text(cs@, nb.name), command: span_text(cs@, blk.command) };
                proof {
                    lemma_pairs_update(pairs, i as int, v);
                }
                st.blocks.set(i, nb);
                assert(block_pairs(cs@, st.blocks@) =~= pairs.update(i as int, (pairs[i as int].0, v)));
            } else if span_has_prefix(cs, start, end, "Exec=") {
                proof { reveal_strlit("Exec="); }
                assert(line.skip(5) =~= cs@.subrange(start + 5, end as int));
                let (a, b) = trim_span(cs, start + 5, end);
                let nb = ActionBlock { id: blk.id, name: blk.name, command: Span { start: a, end: b } };
                let ghost v = DesktopActionView { name: span_text(cs@, blk.name), command: span_text(cs@, nb.command) };
                proof {
                    lemma_pairs_update(pairs, i as int, v);
                }
                st.blocks.set(i, nb);
                assert(block_pairs(cs@, st.blocks@) =~= pairs.update(i as int, (pairs[i as int].0, v)));
            }
        },
    }
}


impl ScanState {
    fn new() -> (st: ScanState)
        ensures
            forall|cs: Seq<char>| st.wf(cs) && #[trigger] st.abs(cs) == initial_scan(),
    {
        let st = ScanState {
            icon: None,
            wm_class: None,
            main_exec: None,
            actions_list: None,
            blocks: Vec::new(),
            current: None,
        };
        assert forall|cs: Seq<char>| st.wf(cs) && #[trigger] st.abs(cs) == initial_scan() by {
            assert(block_pairs(cs, st.blocks@) =~= Seq::<(Seq<char>, DesktopActionView)>::empty());
            assert(pairs_map(block_pairs(cs, st.blocks@)) =~= Map::<Seq<char>, DesktopActionView>::empty());
        }
        st
    }
}

/// Reads every line of `cs` into `st`.
fn scan_all_lines(cs: &Vec<char>) -> (st: ScanState)
    ensures
        st.wf(cs@),
        st.abs(cs@) == scan_entry(cs@),
{
    let n = cs.len();
    let mut st = ScanState::new();
    let mut pos: usize = 0;
    assert(cs@.skip(0) =~= cs@);
    while pos < n
        invariant
            n == cs@.len(),
            pos <= n,
            st.wf(cs@),
            scan_lines(st.abs(cs@), lines_spec(cs@.skip(pos as int))) == scan_entry(cs@),
        decreases n - pos,
    {
        let ghost rest = cs@.skip(pos as int);
        let ghost before = st.abs(cs@);
        let k = find_char(cs, pos, n, '\n');
        assert(cs@.subrange(pos as int, n as int) =~= rest);
        let mut e = k;
        if k < n && e > pos && cs[e - 1] == '\r' {
            e = e - 1;
        }
        let (a, b) = trim_span(cs, pos, e);
        scan_one_line(&mut st, cs, a, b);
        proof {
            let lines = lines_spec(rest);
            if k == n {
                assert(lines == seq![rest]);
                assert(cs@.subrange(pos as int, e as int) =~= rest);
                assert(lines.drop_first() =~= Seq::<Seq<char>>::empty());
                assert(cs@.skip(n as int) =~= Seq::<char>::empty());
            } else {
                lemma_first_index_of(rest, '\n');
                assert(rest.take(k - pos) =~= cs@.subrange(pos as int, k as int));
                assert(strip_cr(rest.take(k - pos)) =~= cs@.subrange(pos as int, e as int));
                assert(rest.skip(k - pos + 1) =~= cs@.skip(k + 1));
                assert(lines[0] == cs@.subrange(pos as int, e as int));
                assert(lines.drop_first() =~= lines_spec(cs@.skip(k + 1)));
            }
        }
        if k == n {
            pos = n;
        } else {
            pos = k + 1;
        }
    }
    assert(cs@.skip(n as int) =~= Seq::<char>::empty());
    st
}

/// The actions that the `Actions=` list `cs[l.start..l.end]` names.
fn collect_actions(st: &ScanState, cs: &Vec<char>, l: Span) -> (r: Vec<DesktopAction>)
    requires
        st.wf(cs@),
        span_ok(cs@, l),
    ensures
        actions_view(r@) == listed_actions(split_spec(span_text(cs@, l), ';'), st.abs(cs@).blocks),
{
    let ghost blocks = st.abs(cs@).blocks;
    let ghost target = listed_actions(split_spec(span_text(cs@, l), ';'), blocks);
    let mut r: Vec<DesktopAction> = Vec::new();
    let mut p = l.start;
    let mut done = false;
    assert(actions_view(r@) =~= Seq::<DesktopActionView>::empty());
    assert(Seq::<DesktopActionView>::empty() + target =~= target);
    while !done
        invariant
            st.wf(cs@),
            blocks == st.abs(cs@).blocks,
            span_ok(cs@, l),
            l.start <= p <= l.end,
            !done ==> actions_view(r@) + listed_actions(
                split_spec(cs@.subrange(p as int, l.end as int), ';'),
                blocks,
            ) == target,
            done ==> actions_view(r@) == target,
        decreases (l.end - p) * 2 + (if done { 0int } else { 1int }),
    {
        let ghost piece_rest = cs@.subrange(p as int, l.end as int);
        let ghost pieces = split_spec(piece_rest, ';');
        let ghost before = actions_view(r@);
        let k = find_char(cs, p, l.end, ';');
        let (a, b) = trim_span(cs, p, k);
        let ghost id = cs@.subrange(a as int, b as int);
        proof {
            lemma_first_index_of(piece_rest, ';');
            assert(piece_rest.take(k - p) =~= cs@.subrange(p as int, k as int));
            assert(pieces[0] == cs@.subrange(p as int, k as int));
            assert(trim_spec(pieces[0]) == id);
        }
        if a < b {
            match find_block(&st.blocks, cs, a, b) {
                Some(i) => {
                    let blk = st.blocks[i];
                    proof {
                        lemma_pairs_lookup(block_pairs(cs@, st.blocks@), i as int);
                    }
                    if blk.name.start < blk.name.end && blk.command.start < blk.command.end {
                        let name = string_of_span(cs, blk.name.start, blk.name.end);
                        let command = string_of_span(cs, blk.command.start, blk.command.end);
                        r.push(DesktopAction { name, command });
                        assert(actions_view(r@) =~= before + listed_action(blocks, id));
                    } else {
                        assert(actions_view(r@) =~= before + listed_action(blocks, id));
                    }
                },
                None => {
                    proof {
                        lemma_pairs_absent(block_pairs(cs@, st.blocks@), id);
                    }
                    assert(actions_view(r@) =~= before + listed_action(blocks, id));
                },
            }
        } else {
            assert(actions_view(r@) =~= before + listed_action(blocks, id));
        }
        proof {
            if k == l.end {
                assert(pieces == seq![piece_rest]);
                assert(pieces.drop_first() =~= Seq::<Seq<char>>::empty());
                assert(actions_view(r@) + Seq::<DesktopActionView>::empty() =~= actions_view(r@));
            } else {
                assert(piece_rest.skip(k - p + 1) =~= cs@.subrange(k + 1, l.end as int));
                assert(pieces.drop_first() =~= split_spec(cs@.subrange(k + 1, l.end as int), ';'));
            }
            assert(before + (listed_action(blocks, id) + listed_actions(pieces.drop_first(), blocks))
                =~= actions_view(r@) + listed_actions(pieces.drop_first(), blocks));
        }
        if k == l.end {
            done = true;
        } else {
            p = k + 1;
        }
    }
    r
}

/// The application that the desktop entry `content` describes, with its
/// `StartupWMClass` as written; `None` for an entry without an `Icon=` key.
pub fn read_desktop_entry(content: &str) -> (r: Option<(AppInfo, Option<String>)>)
    ensures
        match r {
            Some((info, class)) => entry_app_info(content@) == Some(info@) && opt_view(class)
                == scan_entry(content@).wm_class,
            None => entry_app_info(content@) is None,
        },
{
    let cs = chars_of(content);
    let st = scan_all_lines(&cs);
    let ghost sc = scan_entry(cs@);
    let actions = match st.actions_list {
        Some(l) => collect_actions(&st, &cs, l),
        None => Vec::new(),
    };
    assert(actions_view(actions@) =~= entry_actions(sc));
    match st.icon {
        None => None,
        Some(ic) => {
            let icon = string_of_span(&cs, ic.start, ic.end);
            let main_exec = match st.main_exec {
                Some(m) => Some(string_of_span(&cs, m.start, m.end)),
                None => None,
            };
            let info = AppInfo { icon, main_exec, actions };
            let class = match st.wm_class {
                Some(w) => Some(string_of_span(&cs, w.start, w.end)),
                None => None,
            };
            Some((info, class))
        },
    }
}

/// Reads the desktop entry `content`, found at `path`, into `map`: an entry
/// with an `Icon=` key is stored under its lowercase `StartupWMClass` (if
/// any) and under its lowercase file stem, with its main `Exec=` command
/// and the actions of its `Actions=` list that have both a name and a
/// command.
pub fn parse_desktop_entry(path: &str, content: &str, map: &mut AppMap)
    requires
        old(map).wf(),
    ensures
        final(map).wf(),
        final(map)@ == desktop_entry_update(old(map)@, path@, content@),
{
    match read_desktop_entry(content) {
        None => {},
        Some((info, class)) => {
            match class {
                Some(w) => {
                    let key = to_lowercase(w.as_str());
                    map.insert(key, info.clone());
                },
                None => {},
            }
            let stem = match file_stem(path) {
                Some(s) => s,
                None => String::new(),
            };
            let key = to_lowercase(stem.as_str());
            map.insert(key, info);
        },
    }
}

// ---------------------------------------------------------------------
// Resolving an app id
// ---------------------------------------------------------------------
/// An application known only by its icon name.
pub open spec fn icon_only(icon: Seq<char>) -> AppInfoView {
    AppInfoView { icon, main_exec: None, actions: seq![] }
}

/// The icon for windows without an app id.
pub open spec fn generic_icon() -> Seq<char> {
    "application-x-executable-symbolic"@
}

/// The icon name derived from an app id that no desktop entry names, given
/// its lowercase form `lower`: the lowercase binary name of an absolute
/// path; the last segment of a reverse-DNS id where that segment is longer
/// than three bytes; else the lowercase id.
pub open spec fn derived_icon_from(app_id: Seq<char>, lower: Seq<char>) -> Seq<char> {
    if app_id.len() > 0 && app_id[0] == '/' {
        lowercase(after_last(app_id, '/'))
    } else if lower.contains('.') {
        let last = after_last(lower, '.');
        if encode_utf8(last).len() > 3 {
            last
        } else {
            lower
        }
    } else {
        lower
    }
}

/// The application that `app_id`, whose lowercase form is `lower`, resolves
/// to in `map`.
pub open spec fn app_info_from(
    app_id: Seq<char>,
    lower: Seq<char>,
    map: Map<Seq<char>, AppInfoView>,
) -> AppInfoView {
    if app_id.len() == 0 {
        icon_only(generic_icon())
    } else if map.contains_key(lower) {
        map[lower]
    } else {
        icon_only(derived_icon_from(app_id, lower))
    }
}

/// The application that `app_id` resolves to in `map`.
pub open spec fn app_info_for(app_id: Seq<char>, map: Map<Seq<char>, AppInfoView>) -> AppInfoView {
    app_info_from(app_id, lowercase(app_id), map)
}

proof fn lemma_utf8_len_bounds(s: Seq<char>)
    ensures
        s.len() <= encode_utf8(s).len() <= 4 * s.len(),
    decreases s.len(),
{
    if s.len() > 0 {
        lemma_utf8_len_bounds(s.drop_first());
        let c = s[0] as u32;
        assert(1 <= encode_scalar(c).len() <= 4);
    }
}

/// Whether the UTF-8 encoding of `s` is longer than three bytes.
fn utf8_longer_than_3(s: &String) -> (r: bool)
    ensures
        r == (encode_utf8(s@).len() > 3),
{
    proof {
        lemma_utf8_len_bounds(s@);
    }
    let n = s.as_str().unicode_len();
    if n > 3 {
        true
    } else {
        s.as_str().len() > 3
    }
}

/// An application with the icon `icon` and nothing more.
pub fn app_with_icon(icon: String) -> (r: AppInfo)
    ensures
        r@ == icon_only(icon@),
{
    let r = AppInfo { icon, main_exec: None, actions: Vec::new() };
    assert(r@.actions =~= Seq::<DesktopActionView>::empty());
    r
}

/// The icon name that `derived_icon_from` describes for `app_id` and its
/// lowercase form `lower`.
pub fn derive_icon(app_id: &str, lower: String) -> (r: String)
    ensures
        r@ == derived_icon_from(app_id@, lower@),
{
    let id_chars = chars_of(app_id);
    let lower_chars = chars_of(lower.as_str());
    if id_chars.len() > 0 && id_chars[0] == '/' {
        let j = after_last_start(&id_chars, '/');
        let seg = string_of_span(&id_chars, j, id_chars.len());
        assert(seg@ =~= after_last(app_id@, '/'));
        to_lowercase(seg.as_str())
    } else if contains_char(&lower_chars, '.') {
        let j = after_last_start(&lower_chars, '.');
        let seg = string_of_span(&lower_chars, j, lower_chars.len());
        assert(seg@ =~= after_last(lower@, '.'));
        if utf8_longer_than_3(&seg) {
            seg
        } else {
            lower
        }
    } else {
        lower
    }
}

/// Resolves `app_id`, whose lowercase form is `lower`, to its application
/// (see `app_info_from`).
pub fn resolve_app_info(app_id: &str, lower: String, map: &AppMap) -> (r: AppInfo)
    requires
        map.wf(),
    ensures
        r@ == app_info_from(app_id@, lower@, map@),
{
    if app_id.is_empty() {
        proof {
            reveal_strlit("application-x-executable-symbolic");
        }
        return app_with_icon("application-x-executable-symbolic".to_owned());
    }
    match map.get(&lower) {
        Some(info) => {
            return info.clone();
        },
        None => {},
    }
    app_with_icon(derive_icon(app_id, lower))
}

/// Resolves `app_id` to its application: the generic executable icon for
/// an empty id; the entry stored under the lowercase id; else an icon name
/// derived from the id (see `derived_icon_from`).
pub fn get_app_info(app_id: &str, map: &AppMap) -> (r: AppInfo)
    requires
        map.wf(),
    ensures
        r@ == app_info_for(app_id@, map@),
{
    let lower = to_lowercase(app_id);
    resolve_app_info(app_id, lower, map)
}

// ---------------------------------------------------------------------
// Laws
// ---------------------------------------------------------------------
/// Reading a desktop entry with an icon makes its application what an app
/// id resolves to, where the app id's lowercase form is the entry's
/// lowercase file stem or its lowercase `StartupWMClass`.
pub proof fn lemma_app_id_finds_read_entry(
    map: Map<Seq<char>, AppInfoView>,
    path: Seq<char>,
    content: Seq<char>,
    app_id: Seq<char>,
)
    requires
        entry_app_info(content) is Some,
        app_id.len() > 0,
        lowercase(app_id) == lowercase(stem_or_empty(path)) || (scan_entry(content).wm_class
            matches Some(w) && lowercase(app_id) == lowercase(w)),
    ensures
        app_info_for(app_id, desktop_entry_update(map, path, content)) == entry_app_info(content)->0,
{
}

/// A desktop entry without an `Icon=` key leaves the map as it was.
pub proof fn lemma_entry_without_icon_is_ignored(
    map: Map<Seq<char>, AppInfoView>,
    path: Seq<char>,
    content: Seq<char>,
)
    requires
        scan_entry(content).icon is None,
    ensures
        desktop_entry_update(map, path, content) == map,
{
}

/// Reading a desktop entry changes no key but its lowercase file stem and
/// its lowercase `StartupWMClass`.
pub proof fn lemma_entry_keeps_other_keys(
    map: Map<Seq<char>, AppInfoView>,
    path: Seq<char>,
    content: Seq<char>,
    k: Seq<char>,
)
    requires
        k != lowercase(stem_or_empty(path)),
        !(scan_entry(content).wm_class matches Some(w) && k == lowercase(w)),
    ensures
        desktop_entry_update(map, path, content).contains_key(k) == map.contains_key(k),
        map.contains_key(k) ==> desktop_entry_update(map, path, content)[k] == map[k],
{
}

/// Every action that an `Actions=` list yields has a name and a command.
pub proof fn lemma_listed_actions_are_complete(
    pieces: Seq<Seq<char>>,
    blocks: Map<Seq<char>, DesktopActionView>,
)
    ensures
        forall|i: int|
            0 <= i < listed_actions(pieces, blocks).len() ==> (#[trigger] listed_actions(
                pieces,
                blocks,
            )[i]).name.len() > 0 && listed_actions(pieces, blocks)[i].command.len() > 0,
    decreases pieces.len(),
{
    if pieces.len() > 0 {
        lemma_listed_actions_are_complete(pieces.drop_first(), blocks);
        let head = listed_action(blocks, trim_spec(pieces[0]));
        let tail = listed_actions(pieces.drop_first(), blocks);
        assert forall|i: int| 0 <= i < (head + tail).len() implies (#[trigger] (head + tail)[i]).name.len()
            > 0 && (head + tail)[i].command.len() > 0 by {
            if i >= head.len() {
                assert((head + tail)[i] == tail[i - head.len()]);
            }
        }
    }
}

/// An app id is resolved by its lowercase form: two non-empty app ids that
/// are not absolute paths and have the same lowercase form resolve to the
/// same application.
pub proof fn lemma_app_info_depends_on_lowercase(
    a: Seq<char>,
    b: Seq<char>,
    map: Map<Seq<char>, AppInfoView>,
)
    requires
        a.len() > 0,
        b.len() > 0,
        a[0] != '/',
        b[0] != '/',
        lowercase(a) == lowercase(b),
    ensures
        app_info_for(a, map) == app_info_for(b, map),
{
}

/// An ASCII app id resolves as its lowercase form does: two ASCII ids that
/// differ only in the case of their letters resolve to the same application.
pub proof fn lemma_app_info_ignores_ascii_case(
    a: Seq<char>,
    b: Seq<char>,
    map: Map<Seq<char>, AppInfoView>,
)
    requires
        is_ascii_chars(a),
        is_ascii_chars(b),
        ascii_lower(a) == ascii_lower(b),
    ensures
        app_info_for(a, map) == app_info_for(b, map),
{
    assert(a.len() == ascii_lower(a).len());
    assert(b.len() == ascii_lower(b).len());
    if a.len() > 0 {
        assert(ascii_lower(a)[0] == ascii_lower_char(a[0]));
        assert(ascii_lower(b)[0] == ascii_lower_char(b[0]));
        if a[0] == '/' || b[0] == '/' {
            assert(a[0] == '/' && b[0] == '/');
            lemma_ascii_lower_after_last_slash(a);
            lemma_ascii_lower_after_last_slash(b);
        }
    }
}

/// An app id that no desktop entry names, in reverse-DNS form, shows the
/// last `.`-separated segment of its lowercase form where that segment is
/// longer than three bytes, else its whole lowercase form; it has no
/// command and no actions.
pub proof fn lemma_reverse_dns_icon(
    app_id: Seq<char>,
    map: Map<Seq<char>, AppInfoView>,
    p: Seq<char>,
    t: Seq<char>,
)
    requires
        app_id.len() > 0,
        app_id[0] != '/',
        !map.contains_key(lowercase(app_id)),
        lowercase(app_id) == p + seq!['.'] + t,
        !t.contains('.'),
    ensures
        encode_utf8(t).len() > 3 ==> app_info_for(app_id, map).icon == t,
        encode_utf8(t).len() <= 3 ==> app_info_for(app_id, map).icon == lowercase(app_id),
        app_info_for(app_id, map).main_exec is None,
        app_info_for(app_id, map).actions.len() == 0,
{
    let lower = lowercase(app_id);
    lemma_after_last_of_split(p, '.', t);
    assert(lower[p.len() as int] == '.');
    assert(lower.contains('.'));
}

/// In a `[Desktop Action ...]` group only a line that starts with `Name=`
/// sets an action's name, to the trimmed text after `Name=`: any other line
/// that opens no group keeps every action and its name.
pub proof fn lemma_action_name_set_only_by_name_lines(st: EntryScan, line: Seq<char>)
    requires
        !has_prefix(line, "[Desktop Action "@),
    ensures
        forall|x: Seq<char>|
            #[trigger] st.blocks.contains_key(x) ==> scan_line(st, line).blocks.contains_key(x),
        !has_prefix(line, "Name="@) ==> forall|x: Seq<char>|
            #[trigger] st.blocks.contains_key(x) ==> scan_line(st, line).blocks[x].name
                == st.blocks[x].name,
        has_prefix(line, "Name="@) ==> forall|x: Seq<char>|
            #[trigger] st.blocks.contains_key(x) ==> scan_line(st, line).blocks[x].name == (
            if st.current == Some(x) {
                trim_spec(line.skip(5))
            } else {
                st.blocks[x].name
            }),
{
    reveal_strlit("[Desktop Entry]");
    reveal_strlit("Name=");
    if has_prefix(line, "Name="@) {
        assert(!has_prefix(line, "[Desktop Entry]"@)) by {
            assert(line.take(5)[0] == "Name="@[0]);
            assert(line[0] == 'N');
            if has_prefix(line, "[Desktop Entry]"@) {
                assert(line.take(15)[0] == "[Desktop Entry]"@[0]);
            }
        }
    }
}

/// Lines that neither open an action group nor start with `Name=` keep every
/// action and its name: an action's name is the one its last `Name=` line set.
pub proof fn lemma_lines_without_name_keep_names(st: EntryScan, lines: Seq<Seq<char>>)
    requires
        forall|j: int|
            0 <= j < lines.len() ==> !has_prefix(#[trigger] trim_spec(lines[j]), "Name="@)
                && !has_prefix(trim_spec(lines[j]), "[Desktop Action "@),
    ensures
        forall|x: Seq<char>|
            #[trigger] st.blocks.contains_key(x) ==> scan_lines(st, lines).blocks.contains_key(x)
                && scan_lines(st, lines).blocks[x].name == st.blocks[x].name,
    decreases lines.len(),
{
    if lines.len() > 0 {
        let l = trim_spec(lines[0]);
        lemma_action_name_set_only_by_name_lines(st, l);
        let next = scan_line(st, l);
        assert forall|j: int| 0 <= j < lines.drop_first().len() implies !has_prefix(
            #[trigger] trim_spec(lines.drop_first()[j]),
            "Name="@,
        ) && !has_prefix(trim_spec(lines.drop_first()[j]), "[Desktop Action "@) by {
            assert(lines.drop_first()[j] == lines[j + 1]);
        }
        lemma_lines_without_name_keep_names(next, lines.drop_first());
        assert forall|x: Seq<char>| #[trigger] st.blocks.contains_key(x) implies scan_lines(
            st,
            lines,
        ).blocks.contains_key(x) && scan_lines(st, lines).blocks[x].name == st.blocks[x].name by {
            assert(next.blocks.contains_key(x));
        }
    }
}

} // verus!
