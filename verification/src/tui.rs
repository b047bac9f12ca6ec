//! The decisions of the terminal interface: which entry is selected, what a
//! key press does to the list and to the view, and where the help window
//! stands. Drawing, reading keys and saving are left to the caller.
use vstd::prelude::*;
use vstd::string::*;

use crate::store::{
    done_mark, lemma_marks_storable, law_serialized_list_reads_back, open_mark, parsed_list,
    serialized_list, storable_entry,
};
use crate::task::Status;

verus! {

/// The change that the next call of `modification` makes to the list.
#[derive(PartialEq, Eq, Structural)]
pub enum Modification {
    Default,
    Delete,
    Rename,
    SwitchStatus,
    New,
}

/// The cursor of the interface: which list is shown (open or finished
/// tasks), the list index of the entry to modify (none when no entry is
/// highlighted), and the pending change.
pub struct Pos {
    pub status: Status,
    pub mod_item: Option<usize>,
    pub modifier: Modification,
}

/// The other status.
pub open spec fn flipped(s: Status) -> Status {
    match s {
        Status::Done => Status::Open,
        Status::Open => Status::Done,
    }
}

impl Pos {
    /// Shows the other list: open tasks become finished ones and back.
    pub fn switch_status(&mut self) -> (r: &mut Self)
        ensures
            r.status == flipped(old(self).status),
            r.mod_item == old(self).mod_item,
            r.modifier == old(self).modifier,
            *final(self) == *final(r),
    {
        match self.status {
            Status::Done => {
                self.status = Status::Open;
            },
            Status::Open => {
                self.status = Status::Done;
            },
        }
        self
    }
}

/// The text that a new or renamed task gets.
pub open spec fn new_task_text() -> Seq<char> {
    seq!['t', 'e', 's', 't', '2']
}

/// The status mark after switching: an open mark becomes a done mark, any
/// other mark becomes an open one.
pub open spec fn switched_mark(mark: Seq<char>) -> Seq<char> {
    if mark == open_mark() {
        done_mark()
    } else {
        open_mark()
    }
}

/// Whether the cursor points at an entry of a list of length `len`.
pub open spec fn points_into(pos: Pos, len: nat) -> bool {
    pos.mod_item matches Some(i) && i < len
}

/// The list index that the cursor points at, if it points at one.
pub open spec fn target_index(pos: Pos) -> int {
    match pos.mod_item {
        Some(i) => i as int,
        None => -1,
    }
}

/// The list after the pending change of `pos` has been applied to `l`.
pub open spec fn modified_list(pos: Pos, l: Seq<(Seq<char>, Seq<char>)>) -> Seq<
    (Seq<char>, Seq<char>),
> {
    let idx = target_index(pos);
    if !points_into(pos, l.len()) {
        l
    } else {
        match pos.modifier {
            Modification::Delete => if pos.status == Status::Done {
                l.remove(idx)
            } else {
                l
            },
            Modification::SwitchStatus => l.update(idx, (switched_mark(l[idx].0), l[idx].1)),
            Modification::Rename => l.update(idx, (l[idx].0, new_task_text())),
            Modification::New => l.push((open_mark(), new_task_text())),
            Modification::Default => l,
        }
    }
}

/// The text of a new or renamed task.
pub fn new_task() -> (task: String)
    ensures
        task@ == new_task_text(),
{
    let task = String::from_str("test2");
    proof {
        reveal_strlit("test2");
        assert(task@ =~= new_task_text());
    }
    task
}

/// Applies the pending change of `pos` to the list at `pos.mod_item`: in the
/// list of finished tasks a delete removes the entry; a switch turns `[ ]`
/// into `[X]` and any other mark into `[ ]`; a rename sets the task's text;
/// a new entry is appended open. Nothing changes when the cursor points at
/// no entry, or past the end of the list.
pub fn modification(pos: &mut Pos, todo_list: Vec<(String, String)>) -> (res: Vec<(String, String)>)
    ensures
        *final(pos) == *old(pos),
        res.deep_view() == modified_list(*old(pos), todo_list.deep_view()),
{
    let mut todo_list = todo_list;
    let ghost l = todo_list.deep_view();
    let idx = match pos.mod_item {
        Some(i) => i,
        None => {
            return todo_list;
        },
    };
    if idx >= todo_list.len() {
        return todo_list;
    }
    match pos.modifier {
        Modification::Delete => {
            if pos.status == Status::Done {
                todo_list.remove(idx);
                assert(todo_list.deep_view() =~= l.remove(idx as int));
            }
        },
        Modification::SwitchStatus => {
            let open = String::from_str("[ ]");
            proof {
                reveal_strlit("[ ]");
                assert(open@ =~= open_mark());
            }
            let new_status = if todo_list[idx].0 == open {
                let done = String::from_str("[X]");
                proof {
                    reveal_strlit("[X]");
                    assert(done@ =~= done_mark());
                }
                done
            } else {
                open
            };
            let task = todo_list[idx].1.clone();
            todo_list.set(idx, (new_status, task));
            assert(todo_list.deep_view() =~= l.update(
                idx as int,
                (switched_mark(l[idx as int].0), l[idx as int].1),
            ));
        },
        Modification::Rename => {
            let new_task = new_task();
            let status = todo_list[idx].0.clone();
            todo_list.set(idx, (status, new_task));
            assert(todo_list.deep_view() =~= l.update(idx as int, (l[idx as int].0, new_task_text())));
        },
        Modification::New => {
            let new_task = new_task();
            let open = String::from_str("[ ]");
            proof {
                reveal_strlit("[ ]");
                assert(open@ =~= open_mark());
            }
            todo_list.push((open, new_task));
            assert(todo_list.deep_view() =~= l.push((open_mark(), new_task_text())));
        },
        Modification::Default => {},
    }
    todo_list
}

/// A key press, as far as the interface tells keys apart.
pub enum Key {
    Char(char),
    Enter,
    Tab,
    Other,
}

/// The state of the interface between two frames.
pub struct TuiState {
    pub pos: Pos,
    /// The row of the shown list that is highlighted, if any.
    pub selected: Option<usize>,
    /// Whether the keybinding help is shown.
    pub show_modal: bool,
    /// All entries of the todo file, as (status mark, task).
    pub todo_list: Vec<(String, String)>,
}

/// The mathematical state of the interface.
pub struct TuiModel {
    pub pos: Pos,
    pub selected: Option<usize>,
    pub show_modal: bool,
    pub todo_list: Seq<(Seq<char>, Seq<char>)>,
}

impl View for TuiState {
    type V = TuiModel;

    open spec fn view(&self) -> TuiModel {
        TuiModel {
            pos: self.pos,
            selected: self.selected,
            show_modal: self.show_modal,
            todo_list: self.todo_list.deep_view(),
        }
    }
}

/// Whether an entry with the status mark `mark` is shown in the list `view`.
pub open spec fn is_visible(mark: Seq<char>, view: Status) -> bool {
    match view {
        Status::Open => mark == open_mark(),
        Status::Done => mark == done_mark(),
    }
}

/// How many of the first `n` entries are shown in the list `view`.
pub open spec fn visible_before(l: Seq<(Seq<char>, Seq<char>)>, view: Status, n: int) -> nat
    decreases n,
{
    if n <= 0 {
        0
    } else {
        visible_before(l, view, n - 1) + if is_visible(l[n - 1].0, view) {
            1nat
        } else {
            0nat
        }
    }
}

/// Rows are counted in list order: a shown entry comes before every later row.
pub proof fn lemma_visible_before_grows(l: Seq<(Seq<char>, Seq<char>)>, view: Status, j: int, i: int)
    requires
        0 <= j < i <= l.len(),
    ensures
        visible_before(l, view, j) <= visible_before(l, view, i),
        is_visible(l[j].0, view) ==> visible_before(l, view, j) < visible_before(l, view, i),
    decreases i - j,
{
    if j + 1 < i {
        lemma_visible_before_grows(l, view, j, i - 1);
    }
}

/// Whether entry `i` is the one on row `row` of the list `view`.
pub open spec fn is_row(l: Seq<(Seq<char>, Seq<char>)>, view: Status, row: int, i: int) -> bool {
    &&& 0 <= i < l.len()
    &&& is_visible(l[i].0, view)
    &&& visible_before(l, view, i) == row
}

/// Whether entry `i` is on the highlighted row, if a row is highlighted.
pub open spec fn is_highlighted(
    l: Seq<(Seq<char>, Seq<char>)>,
    view: Status,
    selected: Option<usize>,
    i: int,
) -> bool {
    match selected {
        Some(row) => is_row(l, view, row as int, i),
        None => false,
    }
}

/// Whether a key press would overflow the row arithmetic: moving down with
/// an empty list or at the largest row number, jumping to the bottom of an
/// empty list.
pub open spec fn key_fails(m: TuiModel, key: Key) -> bool {
    match key {
        Key::Char('j') => match m.selected {
            Some(s) => s == usize::MAX || m.todo_list.len() == 0,
            None => false,
        },
        Key::Char('G') => m.todo_list.len() == 0,
        _ => false,
    }
}

/// The state after a key press.
pub open spec fn next_model(m: TuiModel, key: Key) -> TuiModel {
    match key {
        Key::Char('q') => m,
        Key::Char('j') => TuiModel {
            selected: match m.selected {
                Some(s) => Some(
                    if s + 1 <= m.todo_list.len() - 1 {
                        (s + 1) as usize
                    } else {
                        (m.todo_list.len() - 1) as usize
                    },
                ),
                None => None,
            },
            ..m
        },
        Key::Char('k') => TuiModel {
            selected: match m.selected {
                Some(s) => Some(
                    if s == 0 {
                        0
                    } else {
                        (s - 1) as usize
                    },
                ),
                None => None,
            },
            ..m
        },
        Key::Char('g') => TuiModel { selected: Some(0), ..m },
        Key::Char('G') => TuiModel { selected: Some((m.todo_list.len() - 1) as usize), ..m },
        Key::Char('h') | Key::Char('l') | Key::Tab => TuiModel {
            pos: Pos { status: flipped(m.pos.status), ..m.pos },
            ..m
        },
        Key::Enter => TuiModel {
            pos: Pos { modifier: Modification::Default, ..m.pos },
            todo_list: modified_list(
                Pos { modifier: Modification::SwitchStatus, ..m.pos },
                m.todo_list,
            ),
            ..m
        },
        Key::Char('a') => TuiModel {
            pos: Pos { modifier: Modification::Default, ..m.pos },
            todo_list: modified_list(Pos { modifier: Modification::New, ..m.pos }, m.todo_list),
            ..m
        },
        Key::Char('r') => TuiModel {
            pos: Pos { modifier: Modification::Rename, ..m.pos },
            todo_list: modified_list(Pos { modifier: Modification::Rename, ..m.pos }, m.todo_list),
            ..m
        },
        Key::Char('d') => TuiModel {
            pos: Pos { modifier: Modification::Default, ..m.pos },
            todo_list: modified_list(Pos { modifier: Modification::Delete, ..m.pos }, m.todo_list),
            ..m
        },
        _ => TuiModel { show_modal: !m.show_modal, ..m },
    }
}

/// Whether a key press ends the interface.
pub open spec fn quits(key: Key) -> bool {
    key == Key::Char('q')
}

/// Whether `mark` is the mark of the entries shown in the list `view`.
fn shows_mark(mark: &String, view: &Status, open: &String, done: &String) -> (r: bool)
    requires
        open@ == open_mark(),
        done@ == done_mark(),
    ensures
        r == is_visible(mark@, *view),
{
    match view {
        Status::Open => *mark == *open,
        Status::Done => *mark == *done,
    }
}

fn open_and_done_marks() -> (r: (String, String))
    ensures
        r.0@ == open_mark(),
        r.1@ == done_mark(),
{
    let open = String::from_str("[ ]");
    let done = String::from_str("[X]");
    proof {
        reveal_strlit("[ ]");
        reveal_strlit("[X]");
        assert(open@ =~= open_mark());
        assert(done@ =~= done_mark());
    }
    (open, done)
}

impl TuiState {
    /// The state on start: the open tasks are shown, the first row is
    /// highlighted, no change is pending and no help is shown.
    pub fn new(todo_list: Vec<(String, String)>) -> (state: TuiState)
        ensures
            state.pos == (Pos { status: Status::Open, mod_item: None, modifier: Modification::Default }),
            state.selected == Some(0usize),
            !state.show_modal,
            state.todo_list.deep_view() == todo_list.deep_view(),
    {
        TuiState {
            pos: Pos { status: Status::Open, mod_item: None, modifier: Modification::Default },
            selected: Some(0),
            show_modal: false,
            todo_list,
        }
    }

    /// The list indices of the entries shown in the current list, in order.
    pub fn visible_entries(&self) -> (rows: Vec<usize>)
        ensures
            rows.len() == visible_before(self@.todo_list, self.pos.status, self@.todo_list.len() as int),
            forall|k: int|
                0 <= k < rows.len() ==> is_row(
                    self@.todo_list,
                    self.pos.status,
                    k,
                    #[trigger] rows@[k] as int,
                ),
    {
        let (open, done) = open_and_done_marks();
        let ghost l = self@.todo_list;
        let mut rows: Vec<usize> = Vec::new();
        for i in 0..self.todo_list.len()
            invariant
                open@ == open_mark(),
                done@ == done_mark(),
                l == self@.todo_list,
                l.len() == self.todo_list.len(),
                rows.len() == visible_before(l, self.pos.status, i as int),
                forall|k: int|
                    0 <= k < rows.len() ==> is_row(l, self.pos.status, k, #[trigger] rows@[k] as int),
        {
            assert(l[i as int].0 == self.todo_list@[i as int].0@);
            if shows_mark(&self.todo_list[i].0, &self.pos.status, &open, &done) {
                rows.push(i);
            }
        }
        rows
    }

    /// Points the cursor at the entry on the highlighted row of the shown
    /// list; leaves no cursor when no row is highlighted or the shown list
    /// has no such row.
    pub fn sync_selection(&mut self)
        ensures
            final(self).selected == old(self).selected,
            final(self).show_modal == old(self).show_modal,
            final(self).todo_list == old(self).todo_list,
            final(self).pos.status == old(self).pos.status,
            final(self).pos.modifier == old(self).pos.modifier,
            forall|i: int|
                is_highlighted(old(self)@.todo_list, old(self).pos.status, old(self).selected, i)
                    ==> final(self).pos.mod_item == Some(i as usize),
            (forall|i: int|
                !is_highlighted(old(self)@.todo_list, old(self).pos.status, old(self).selected, i))
                ==> final(self).pos.mod_item is None,
    {
        let ghost l = self@.todo_list;
        let ghost modal = self.show_modal;
        let ghost view = self.pos.status;
        let ghost modifier = self.pos.modifier;
        let ghost tl = self.todo_list;
        self.pos.mod_item = None;
        let sel = match self.selected {
            Some(row) => row,
            None => {
                return ;
            },
        };
        let (open, done) = open_and_done_marks();
        let len = self.todo_list.len();
        let mut visible: usize = 0;
        for i in 0..len
            invariant
                open@ == open_mark(),
                done@ == done_mark(),
                l == self@.todo_list,
                len == l.len(),
                l.len() == self.todo_list.len(),
                self.selected == Some(sel),
                self.show_modal == modal,
                self.pos.status == view,
                self.pos.modifier == modifier,
                self.todo_list == tl,
                visible == visible_before(l, self.pos.status, i as int),
                visible <= i,
                forall|j: int|
                    0 <= j < i && is_row(l, self.pos.status, sel as int, j)
                        ==> self.pos.mod_item == Some(j as usize),
                (forall|j: int|
                    0 <= j < i ==> !is_row(l, self.pos.status, sel as int, j))
                    ==> self.pos.mod_item is None,
        {
            assert(l[i as int].0 == self.todo_list@[i as int].0@);
            let ghost before_item = self.pos.mod_item;
            proof {
                assert forall|j: int| 0 <= j < i && is_visible(l[j].0, view) implies
                    visible_before(l, view, j) < visible_before(l, view, i as int) by {
                    lemma_visible_before_grows(l, view, j, i as int);
                }
            }
            if shows_mark(&self.todo_list[i].0, &self.pos.status, &open, &done) {
                if visible == sel {
                    self.pos.mod_item = Some(i);
                }
                visible = visible + 1;
            }
            proof {
                if !is_row(l, view, sel as int, i as int) {
                    assert(self.pos.mod_item == before_item);
                }
                if forall|j: int| 0 <= j < i + 1 ==> !is_row(l, view, sel as int, j) {
                    assert forall|j: int| 0 <= j < i implies !is_row(l, view, sel as int, j) by {
                        assert(0 <= j < i + 1);
                    }
                }
            }
        }
        proof {
            if forall|i: int| !is_highlighted(l, view, Some(sel), i) {
                assert forall|j: int| 0 <= j < len implies !is_row(l, view, sel as int, j) by {
                    assert(!is_highlighted(l, view, Some(sel), j));
                }
            }
        }
    }
}


impl TuiState {
    /// Handles one key press and tells whether the interface ends: `q` ends
    /// it; `j`/`k` move the highlight down/up, `g`/`G` to the top/bottom;
    /// `h`, `l` and Tab show the other list; Enter switches the status of the
    /// entry under the cursor, `a` appends a new task, `r` renames the entry,
    /// `d` deletes it (only from the list of finished tasks); any other key
    /// shows or hides the keybinding help.
    pub fn handle_key(&mut self, key: Key) -> (quit: bool)
        requires
            !key_fails(old(self)@, key),
        ensures
            quit == quits(key),
            final(self)@ == next_model(old(self)@, key),
    {
        match key {
            Key::Char('q') => {
                return true;
            },
            Key::Char('j') => {
                if let Some(selected) = self.selected {
                    let next = selected + 1;
                    let last = self.todo_list.len() - 1;
                    self.selected = Some(
                        if next <= last {
                            next
                        } else {
                            last
                        },
                    );
                }
            },
            Key::Char('k') => {
                if let Some(selected) = self.selected {
                    self.selected = Some(selected.saturating_sub(1));
                }
            },
            Key::Char('g') => {
                self.selected = Some(0);
            },
            Key::Char('G') => {
                self.selected = Some(self.todo_list.len() - 1);
            },
            Key::Char('h') | Key::Char('l') | Key::Tab => {
                self.pos.switch_status();
            },
            Key::Enter => {
                self.pos.modifier = Modification::SwitchStatus;
                self.apply_modification();
                self.pos.modifier = Modification::Default;
            },
            Key::Char('a') => {
                self.pos.modifier = Modification::New;
                self.apply_modification();
                self.pos.modifier = Modification::Default;
            },
            Key::Char('r') => {
                self.pos.modifier = Modification::Rename;
                self.apply_modification();
            },
            Key::Char('d') => {
                self.pos.modifier = Modification::Delete;
                self.apply_modification();
                self.pos.modifier = Modification::Default;
            },
            _ => {
                self.show_modal = !self.show_modal;
            },
        }
        false
    }

    /// Applies the pending change of the cursor to the list.
    fn apply_modification(&mut self)
        ensures
            final(self)@ == (TuiModel {
                todo_list: modified_list(old(self).pos, old(self)@.todo_list),
                ..old(self)@
            }),
    {
        let mut list: Vec<(String, String)> = Vec::new();
        std::mem::swap(&mut list, &mut self.todo_list);
        self.todo_list = modification(&mut self.pos, list);
    }
}

/// Where the keybinding help is drawn inside an area of the terminal.
pub struct ModalArea {
    pub x: u16,
    pub y: u16,
    pub width: u16,
    pub height: u16,
}

/// The help window: 60% of the width and 20% of the height of the area
/// (rounded down), centred in it (offsets rounded down).
pub fn modal_area(area_width: u16, area_height: u16) -> (r: ModalArea)
    requires
        area_width * 60 <= u16::MAX,
        area_height * 20 <= u16::MAX,
    ensures
        r.width == area_width * 60 / 100,
        r.height == area_height * 20 / 100,
        r.x == (area_width - r.width) / 2,
        r.y == (area_height - r.height) / 2,
{
    let modal_width = (area_width * 60) / 100;
    let modal_height = (area_height * 20) / 100;
    assert(modal_width <= area_width) by (nonlinear_arith)
        requires
            modal_width == area_width * 60 / 100,
    ;
    assert(modal_height <= area_height) by (nonlinear_arith)
        requires
            modal_height == area_height * 20 / 100,
    ;
    ModalArea {
        x: (area_width - modal_width) / 2,
        y: (area_height - modal_height) / 2,
        width: modal_width,
        height: modal_height,
    }
}

// ---------------------------------------------------------------------------
// Laws of the interface
// ---------------------------------------------------------------------------

/// Whether a key shows the other list.
pub open spec fn switches_view(key: Key) -> bool {
    key == Key::Char('h') || key == Key::Char('l') || key == Key::Tab
}

/// Showing the other list twice shows the list that was shown, and changes
/// nothing else.
pub proof fn law_view_switch_twice(m: TuiModel, k1: Key, k2: Key)
    requires
        switches_view(k1),
        switches_view(k2),
    ensures
        next_model(next_model(m, k1), k2) == m,
{
}

/// Switching the status of the same entry twice restores the list, when the
/// entry's mark was `[ ]` or `[X]`.
pub proof fn law_switch_entry_twice(pos: Pos, l: Seq<(Seq<char>, Seq<char>)>)
    requires
        pos.modifier == Modification::SwitchStatus,
        points_into(pos, l.len()) ==> (l[target_index(pos)].0 == open_mark()
            || l[target_index(pos)].0 == done_mark()),
    ensures
        modified_list(pos, modified_list(pos, l)) == l,
{
    let idx = target_index(pos);
    if points_into(pos, l.len()) {
        assert(open_mark() != done_mark()) by {
            assert(open_mark()[1] != done_mark()[1]);
        }
        assert(modified_list(pos, modified_list(pos, l)) =~= l);
    }
}

/// While the open tasks are shown, deleting changes nothing: only finished
/// tasks are ever deleted.
pub proof fn law_delete_keeps_open_tasks(m: TuiModel)
    requires
        m.pos.status == Status::Open,
    ensures
        next_model(m, Key::Char('d')).todo_list == m.todo_list,
{
}

/// Only `a` and `d` change the number of entries: `a` adds one, `d` removes
/// one (from the list of finished tasks, at an index inside the list).
pub proof fn law_entry_count(m: TuiModel, key: Key)
    ensures
        next_model(m, key).todo_list.len() == if key == Key::Char('a') && points_into(
            m.pos,
            m.todo_list.len(),
        ) {
            m.todo_list.len() + 1 as int
        } else if key == Key::Char('d') && m.pos.status == Status::Done && points_into(
            m.pos,
            m.todo_list.len(),
        ) {
            m.todo_list.len() - 1
        } else {
            m.todo_list.len() as int
        },
{
}

/// Moving down, to the top or to the bottom keeps the highlighted row
/// inside a non-empty list; moving up never moves down; without a
/// highlighted row, moving up or down changes nothing.
pub proof fn law_navigation_in_bounds(m: TuiModel, key: Key)
    requires
        m.todo_list.len() > 0,
        m.selected matches Some(s) ==> s < m.todo_list.len(),
    ensures
        key == Key::Char('j') || key == Key::Char('g') || key == Key::Char('G') || key
            == Key::Char('k') ==> (next_model(m, key).selected matches Some(s) ==> s
            < m.todo_list.len()),
        key == Key::Char('k') && m.selected is Some ==> next_model(m, key).selected->0
            <= m.selected->0,
        (key == Key::Char('j') || key == Key::Char('k')) && m.selected is None ==> next_model(
            m,
            key,
        ).selected is None,
{
}

/// A change keeps every entry storable: what the interface saves can be
/// read back.
pub proof fn law_modification_keeps_storable(pos: Pos, l: Seq<(Seq<char>, Seq<char>)>)
    requires
        forall|i: int| 0 <= i < l.len() ==> storable_entry(#[trigger] l[i]),
    ensures
        forall|i: int|
            0 <= i < modified_list(pos, l).len() ==> storable_entry(
                #[trigger] modified_list(pos, l)[i],
            ),
{
    lemma_marks_storable();
    assert(!new_task_text().contains('\n') && !(new_task_text().last() == '\r')) by {
        assert forall|k: int| 0 <= k < new_task_text().len() implies new_task_text()[k]
            != '\n' by {}
    }
    let r = modified_list(pos, l);
    let idx = target_index(pos);
    if points_into(pos, l.len()) {
        assert forall|i: int| 0 <= i < r.len() implies storable_entry(#[trigger] r[i]) by {
            match pos.modifier {
                Modification::Delete => {
                    if pos.status == Status::Done {
                        if i < idx {
                            assert(r[i] == l[i]);
                        } else {
                            assert(r[i] == l[i + 1]);
                        }
                    }
                },
                Modification::SwitchStatus => {
                    if i != idx {
                        assert(r[i] == l[i]);
                    } else {
                        assert(storable_entry(l[i]));
                    }
                },
                Modification::Rename => {
                    if i != idx {
                        assert(r[i] == l[i]);
                    } else {
                        assert(storable_entry(l[i]));
                    }
                },
                Modification::New => {
                    if i < l.len() {
                        assert(r[i] == l[i]);
                    }
                },
                Modification::Default => {},
            }
        }
    }
}

/// After any key press, the list that the interface would save reads back
/// as that same list, when every entry it started from was storable.
pub proof fn law_saved_list_reads_back(m: TuiModel, key: Key)
    requires
        forall|i: int| 0 <= i < m.todo_list.len() ==> storable_entry(#[trigger] m.todo_list[i]),
    ensures
        parsed_list(serialized_list(next_model(m, key).todo_list)) == next_model(
            m,
            key,
        ).todo_list,
{
    let n = next_model(m, key);
    match key {
        Key::Enter => law_modification_keeps_storable(
            Pos { modifier: Modification::SwitchStatus, ..m.pos },
            m.todo_list,
        ),
        Key::Char('a') => law_modification_keeps_storable(
            Pos { modifier: Modification::New, ..m.pos },
            m.todo_list,
        ),
        Key::Char('r') => law_modification_keeps_storable(
            Pos { modifier: Modification::Rename, ..m.pos },
            m.todo_list,
        ),
        Key::Char('d') => law_modification_keeps_storable(
            Pos { modifier: Modification::Delete, ..m.pos },
            m.todo_list,
        ),
        _ => {},
    }
    law_serialized_list_reads_back(n.todo_list);
}

/// Whether a status mark is `[ ]`, `[X]` or the mark of an entry of `orig`.
pub open spec fn mark_from(mark: Seq<char>, orig: Seq<(Seq<char>, Seq<char>)>) -> bool {
    mark == open_mark() || mark == done_mark() || exists|j: int|
        0 <= j < orig.len() && #[trigger] orig[j].0 == mark
}

/// Whether a task is the text of new tasks or the task of an entry of `orig`.
pub open spec fn task_from(task: Seq<char>, orig: Seq<(Seq<char>, Seq<char>)>) -> bool {
    task == new_task_text() || exists|j: int| 0 <= j < orig.len() && #[trigger] orig[j].1 == task
}

/// Whether every entry of `l` is made of marks and tasks that `orig` or the
/// interface provides.
pub open spec fn entries_from(
    l: Seq<(Seq<char>, Seq<char>)>,
    orig: Seq<(Seq<char>, Seq<char>)>,
) -> bool {
    forall|i: int|
        0 <= i < l.len() ==> mark_from(#[trigger] l[i].0, orig) && task_from(l[i].1, orig)
}

/// The state after a session: for each step, the cursor is placed (as
/// `sync_selection` does) and then the key is handled.
pub open spec fn session(m: TuiModel, steps: Seq<(Option<usize>, Key)>) -> TuiModel
    decreases steps.len(),
{
    if steps.len() == 0 {
        m
    } else {
        let prev = session(m, steps.drop_last());
        next_model(
            TuiModel { pos: Pos { mod_item: steps.last().0, ..prev.pos }, ..prev },
            steps.last().1,
        )
    }
}

/// How many steps of a session press `a`.
pub open spec fn adds_in(steps: Seq<(Option<usize>, Key)>) -> nat
    decreases steps.len(),
{
    if steps.len() == 0 {
        0
    } else {
        adds_in(steps.drop_last()) + if steps.last().1 == Key::Char('a') {
            1nat
        } else {
            0nat
        }
    }
}

/// One key press keeps every entry made of marks and tasks of `orig` or of
/// the interface, and adds at most one entry, only for `a`.
pub proof fn law_step_keeps_origin(
    orig: Seq<(Seq<char>, Seq<char>)>,
    m: TuiModel,
    key: Key,
)
    requires
        entries_from(m.todo_list, orig),
    ensures
        entries_from(next_model(m, key).todo_list, orig),
        next_model(m, key).todo_list.len() <= m.todo_list.len() + if key == Key::Char('a') {
            1int
        } else {
            0int
        },
{
    let l = m.todo_list;
    let pos = match key {
        Key::Enter => Pos { modifier: Modification::SwitchStatus, ..m.pos },
        Key::Char('a') => Pos { modifier: Modification::New, ..m.pos },
        Key::Char('r') => Pos { modifier: Modification::Rename, ..m.pos },
        Key::Char('d') => Pos { modifier: Modification::Delete, ..m.pos },
        _ => m.pos,
    };
    let changes = match key {
        Key::Enter | Key::Char('a') | Key::Char('r') | Key::Char('d') => true,
        _ => false,
    };
    if changes && points_into(pos, l.len()) {
        let r = modified_list(pos, l);
        assert(next_model(m, key).todo_list == r);
        let idx = target_index(pos);
        assert forall|i: int| 0 <= i < r.len() implies mark_from(#[trigger] r[i].0, orig)
            && task_from(r[i].1, orig) by {
            match pos.modifier {
                Modification::Delete => {
                    if pos.status == Status::Done {
                        if i < idx {
                            assert(mark_from(l[i].0, orig));
                            assert(task_from(l[i].1, orig));
                            assert(r[i] == l[i]);
                        } else {
                            assert(mark_from(l[i + 1].0, orig));
                            assert(task_from(l[i + 1].1, orig));
                            assert(r[i] == l[i + 1]);
                        }
                    } else {
                        assert(mark_from(l[i].0, orig));
                        assert(task_from(l[i].1, orig));
                        assert(r[i] == l[i]);
                    }
                },
                Modification::SwitchStatus => {
                    if i != idx {
                        assert(mark_from(l[i].0, orig));
                        assert(task_from(l[i].1, orig));
                        assert(r[i] == l[i]);
                    } else {
                        assert(r[i].1 == l[i].1);
                        assert(mark_from(l[i].0, orig) && task_from(l[i].1, orig));
                    }
                },
                Modification::Rename => {
                    if i != idx {
                        assert(mark_from(l[i].0, orig));
                        assert(task_from(l[i].1, orig));
                        assert(r[i] == l[i]);
                    } else {
                        assert(r[i].0 == l[i].0);
                        assert(mark_from(l[i].0, orig) && task_from(l[i].1, orig));
                    }
                },
                Modification::New => {
                    if i < l.len() {
                        assert(mark_from(l[i].0, orig));
                        assert(task_from(l[i].1, orig));
                        assert(r[i] == l[i]);
                    } else {
                        assert(r[i] == (open_mark(), new_task_text()));
                    }
                },
                Modification::Default => {
                    assert(mark_from(l[i].0, orig));
                    assert(task_from(l[i].1, orig));
                    assert(r[i] == l[i]);
                },
            }
        }
        assert(entries_from(r, orig));
    } else {
        assert(next_model(m, key).todo_list == l);
    }
}

/// Over a whole session, whatever cursor each step uses, every entry is
/// made of the marks and tasks of the starting list or of the interface
/// (`[ ]`, `[X]`, the new-task text), and the list grows by at most one
/// entry per `a`.
pub proof fn law_session_keeps_origin(m: TuiModel, steps: Seq<(Option<usize>, Key)>)
    ensures
        entries_from(session(m, steps).todo_list, m.todo_list),
        session(m, steps).todo_list.len() <= m.todo_list.len() + adds_in(steps),
    decreases steps.len(),
{
    if steps.len() == 0 {
        assert forall|i: int| 0 <= i < m.todo_list.len() implies mark_from(
            #[trigger] m.todo_list[i].0,
            m.todo_list,
        ) && task_from(m.todo_list[i].1, m.todo_list) by {
            assert(m.todo_list[i].0 == m.todo_list[i].0);
        }
    } else {
        law_session_keeps_origin(m, steps.drop_last());
        let prev = session(m, steps.drop_last());
        let placed = TuiModel { pos: Pos { mod_item: steps.last().0, ..prev.pos }, ..prev };
        law_step_keeps_origin(m.todo_list, placed, steps.last().1);
    }
}

// ---------------------------------------------------------------------------
// What each key and each change does, entry by entry
// ---------------------------------------------------------------------------

/// `j` moves the highlight one row down, but not past the last entry of the
/// list; `k` moves it one row up, but not above the first; `g` highlights
/// the first row and `G` the row of the last entry. None of them changes the
/// list, the cursor, the shown list or the help.
pub proof fn law_navigation_keys(m: TuiModel, s: usize)
    requires
        m.todo_list.len() > 0,
        m.selected == Some(s),
    ensures
        s + 1 < m.todo_list.len() ==> next_model(m, Key::Char('j')).selected == Some(
            (s + 1) as usize,
        ),
        s + 1 >= m.todo_list.len() ==> next_model(m, Key::Char('j')).selected == Some(
            (m.todo_list.len() - 1) as usize,
        ),
        s > 0 ==> next_model(m, Key::Char('k')).selected == Some((s - 1) as usize),
        s == 0 ==> next_model(m, Key::Char('k')).selected == Some(0usize),
        next_model(m, Key::Char('g')).selected == Some(0usize),
        next_model(m, Key::Char('G')).selected == Some((m.todo_list.len() - 1) as usize),
        forall|c: char|
            c == 'j' || c == 'k' || c == 'g' || c == 'G' ==> {
                let n = #[trigger] next_model(m, Key::Char(c));
                &&& n.todo_list == m.todo_list
                &&& n.pos == m.pos
                &&& n.show_modal == m.show_modal
            },
{
    assert forall|c: char| c == 'j' || c == 'k' || c == 'g' || c == 'G' implies {
        let n = #[trigger] next_model(m, Key::Char(c));
        &&& n.todo_list == m.todo_list
        &&& n.pos == m.pos
        &&& n.show_modal == m.show_modal
    } by {
        if c == 'j' {
        } else if c == 'k' {
        } else if c == 'g' {
        } else {
        }
    }
}

/// `h`, `l` and Tab show the other list and change nothing else; `q` changes
/// nothing; a key without a binding shows or hides the help and changes
/// nothing else.
pub proof fn law_view_and_help_keys(m: TuiModel)
    ensures
        next_model(m, Key::Tab).pos.status != m.pos.status,
        next_model(m, Key::Tab).pos.mod_item == m.pos.mod_item,
        next_model(m, Key::Tab).todo_list == m.todo_list,
        next_model(m, Key::Tab).selected == m.selected,
        next_model(m, Key::Char('h')) == next_model(m, Key::Tab),
        next_model(m, Key::Char('l')) == next_model(m, Key::Tab),
        next_model(m, Key::Char('q')) == m,
        next_model(m, Key::Other).show_modal == !m.show_modal,
        next_model(m, Key::Other).todo_list == m.todo_list,
        next_model(m, Key::Other).pos == m.pos,
        next_model(m, Key::Other).selected == m.selected,
        next_model(m, Key::Char('x')) == next_model(m, Key::Other),
{
}

/// Enter switches, `a` adds, `r` renames and `d` deletes at the cursor; all
/// but `r` leave no change pending afterwards; none moves the highlight,
/// the cursor or the shown list.
pub proof fn law_edit_keys(m: TuiModel)
    ensures
        next_model(m, Key::Enter).todo_list == modified_list(
            Pos { modifier: Modification::SwitchStatus, ..m.pos },
            m.todo_list,
        ),
        next_model(m, Key::Char('a')).todo_list == modified_list(
            Pos { modifier: Modification::New, ..m.pos },
            m.todo_list,
        ),
        next_model(m, Key::Char('r')).todo_list == modified_list(
            Pos { modifier: Modification::Rename, ..m.pos },
            m.todo_list,
        ),
        next_model(m, Key::Char('d')).todo_list == modified_list(
            Pos { modifier: Modification::Delete, ..m.pos },
            m.todo_list,
        ),
        next_model(m, Key::Enter).pos.modifier == Modification::Default,
        next_model(m, Key::Char('a')).pos.modifier == Modification::Default,
        next_model(m, Key::Char('d')).pos.modifier == Modification::Default,
        next_model(m, Key::Char('r')).pos.modifier == Modification::Rename,
        next_model(m, Key::Enter).selected == m.selected,
        next_model(m, Key::Char('a')).selected == m.selected,
        next_model(m, Key::Char('r')).selected == m.selected,
        next_model(m, Key::Char('d')).selected == m.selected,
        next_model(m, Key::Enter).pos.mod_item == m.pos.mod_item,
        next_model(m, Key::Char('d')).pos.status == m.pos.status,
        next_model(m, Key::Enter).pos.status == m.pos.status,
{
}

/// Renaming the entry at the cursor gives it the text `test2` and keeps its
/// mark; every other entry stays as it was.
pub proof fn law_rename_at_cursor(pos: Pos, l: Seq<(Seq<char>, Seq<char>)>, i: usize)
    requires
        pos.modifier == Modification::Rename,
        pos.mod_item == Some(i),
        i < l.len(),
    ensures
        modified_list(pos, l).len() == l.len(),
        modified_list(pos, l)[i as int].0 == l[i as int].0,
        modified_list(pos, l)[i as int].1 == seq!['t', 'e', 's', 't', '2'],
        forall|j: int| 0 <= j < l.len() && j != i ==> #[trigger] modified_list(pos, l)[j] == l[j],
{
}

/// Switching the entry at the cursor turns `[ ]` into `[X]` and every other
/// mark into `[ ]`, keeps its task, and leaves every other entry as it was.
pub proof fn law_switch_at_cursor(pos: Pos, l: Seq<(Seq<char>, Seq<char>)>, i: usize)
    requires
        pos.modifier == Modification::SwitchStatus,
        pos.mod_item == Some(i),
        i < l.len(),
    ensures
        modified_list(pos, l).len() == l.len(),
        l[i as int].0 == seq!['[', ' ', ']'] ==> modified_list(pos, l)[i as int].0 == seq![
            '[',
            'X',
            ']',
        ],
        l[i as int].0 != seq!['[', ' ', ']'] ==> modified_list(pos, l)[i as int].0 == seq![
            '[',
            ' ',
            ']',
        ],
        modified_list(pos, l)[i as int].1 == l[i as int].1,
        forall|j: int| 0 <= j < l.len() && j != i ==> #[trigger] modified_list(pos, l)[j] == l[j],
{
    assert(open_mark() =~= seq!['[', ' ', ']']);
    assert(done_mark() =~= seq!['[', 'X', ']']);
}

/// Deleting at the cursor removes that entry while finished tasks are shown
/// (the entries after it move up by one) and changes nothing while open
/// tasks are shown.
pub proof fn law_delete_at_cursor(pos: Pos, l: Seq<(Seq<char>, Seq<char>)>, i: usize)
    requires
        pos.modifier == Modification::Delete,
        pos.mod_item == Some(i),
        i < l.len(),
    ensures
        pos.status == Status::Open ==> modified_list(pos, l) == l,
        pos.status == Status::Done ==> {
            &&& modified_list(pos, l).len() == l.len() - 1
            &&& forall|j: int| 0 <= j < i ==> #[trigger] modified_list(pos, l)[j] == l[j]
            &&& forall|j: int| i <= j < l.len() - 1 ==> #[trigger] modified_list(pos, l)[j] == l[j
                + 1]
        },
{
}

/// Adding (with the cursor on an entry) appends the open entry
/// (`[ ]`, `test2`) after all the others, which stay as they were.
pub proof fn law_new_at_end(pos: Pos, l: Seq<(Seq<char>, Seq<char>)>, i: usize)
    requires
        pos.modifier == Modification::New,
        pos.mod_item == Some(i),
        i < l.len(),
    ensures
        modified_list(pos, l).len() == l.len() + 1,
        modified_list(pos, l)[l.len() as int] == (
            seq!['[', ' ', ']'],
            seq!['t', 'e', 's', 't', '2'],
        ),
        forall|j: int| 0 <= j < l.len() ==> #[trigger] modified_list(pos, l)[j] == l[j],
{
    assert(open_mark() =~= seq!['[', ' ', ']']);
    assert(new_task_text() =~= seq!['t', 'e', 's', 't', '2']);
}

/// Without a cursor on an entry of the list, or with no change pending,
/// the list stays as it was.
pub proof fn law_no_change_without_cursor(pos: Pos, l: Seq<(Seq<char>, Seq<char>)>)
    requires
        pos.mod_item is None || pos.mod_item->0 >= l.len() || pos.modifier
            == Modification::Default,
    ensures
        modified_list(pos, l) == l,
{
}

/// The open list shows exactly the entries marked `[ ]`, the finished list
/// exactly those marked `[X]`.
pub proof fn law_shown_marks(mark: Seq<char>)
    ensures
        is_visible(mark, Status::Open) <==> mark == seq!['[', ' ', ']'],
        is_visible(mark, Status::Done) <==> mark == seq!['[', 'X', ']'],
{
    assert(open_mark() =~= seq!['[', ' ', ']']);
    assert(done_mark() =~= seq!['[', 'X', ']']);
}

/// Rows number the shown entries from 0 in list order: the first shown
/// entry is row 0, each shown entry is one row below the previous shown one,
/// and no two entries are on the same row.
pub proof fn law_rows_in_order(l: Seq<(Seq<char>, Seq<char>)>, view: Status, i: int, j: int)
    requires
        0 <= i < j < l.len(),
        is_visible(l[i].0, view),
        is_visible(l[j].0, view),
    ensures
        visible_before(l, view, j) >= visible_before(l, view, i) + 1,
        (forall|k: int| i < k < j ==> !is_visible(#[trigger] l[k].0, view)) ==> visible_before(
            l,
            view,
            j,
        ) == visible_before(l, view, i) + 1,
        (forall|k: int| 0 <= k < i ==> !is_visible(#[trigger] l[k].0, view)) ==> visible_before(
            l,
            view,
            i,
        ) == 0,
    decreases j - i,
{
    lemma_visible_before_grows(l, view, i, j);
    if forall|k: int| i < k < j ==> !is_visible(#[trigger] l[k].0, view) {
        lemma_no_visible_between(l, view, i + 1, j);
    }
    if forall|k: int| 0 <= k < i ==> !is_visible(#[trigger] l[k].0, view) {
        lemma_no_visible_between(l, view, 0, i);
    }
}

/// With no shown entry among entries `a..b`, the count does not grow
/// between them.
proof fn lemma_no_visible_between(l: Seq<(Seq<char>, Seq<char>)>, view: Status, a: int, b: int)
    requires
        0 <= a <= b <= l.len(),
        forall|k: int| a <= k < b ==> !is_visible(#[trigger] l[k].0, view),
    ensures
        visible_before(l, view, b) == visible_before(l, view, a),
    decreases b - a,
{
    if a < b {
        lemma_no_visible_between(l, view, a, b - 1);
        assert(!is_visible(l[b - 1].0, view));
    }
}

/// Only `q` ends the interface.
pub proof fn law_only_q_quits(key: Key)
    ensures
        quits(key) <==> key == Key::Char('q'),
{
}

/// The only key presses left out are those whose row arithmetic would
/// overflow: `j` on a highlighted row of an empty list or at the largest row
/// number, and `G` on an empty list.
pub proof fn law_keys_that_fail(m: TuiModel, key: Key)
    ensures
        key_fails(m, key) <==> (key == Key::Char('j') && m.selected is Some && (m.todo_list.len()
            == 0 || m.selected->0 == usize::MAX)) || (key == Key::Char('G') && m.todo_list.len()
            == 0),
{
}

/// The highlighted entry is the shown entry on the highlighted row, and
/// nothing is highlighted without a highlighted row.
pub proof fn law_highlighted_entry(
    l: Seq<(Seq<char>, Seq<char>)>,
    view: Status,
    row: usize,
    i: int,
)
    ensures
        is_highlighted(l, view, Some(row), i) <==> (0 <= i < l.len() && is_visible(l[i].0, view)
            && visible_before(l, view, i) == row),
        !is_highlighted(l, view, None, i),
{
}

} // verus!
