//! Layout of a parsed status line into positioned draw commands and
//! clickable regions.
//!
//! The engine walks the directive sequence once, keeping a cursor per
//! alignment lane, the colors in effect, at most one pending clickable
//! region and at most one pending underline and overline record. The
//! walk is stated by [`layout_step`] and [`layout_fold`]; finalization
//! shifts each lane against the surface edges. The executable walk
//! returns exactly what [`spec_layout`] describes.

use vstd::prelude::*;

use crate::color::Color;
use crate::parse::{Align, Attribute, AttributeAction, PartView, StyledStringPart};

verus! {

/// Fixed margin kept clear at the surface's left and right edge.
pub const MARGIN: usize = 5;

/// A positioned span of text to draw.
#[derive(Debug, PartialEq)]
pub struct TextCommand {
    pub string: Vec<char>,
    pub fg: Color,
    pub bg: Color,
    pub start: usize,
    pub end: usize,
}

/// A positioned horizontal rule (underline or overline).
#[derive(Debug, PartialEq)]
pub struct LineCommand {
    pub color: Color,
    pub start: usize,
    pub end: usize,
}

/// One draw command.
#[derive(Debug, PartialEq)]
pub enum Command {
    Text(TextCommand),
    Underline(LineCommand),
    Overline(LineCommand),
}

/// A clickable region: a horizontal span bound to a mouse button and
/// the command string to report.
#[derive(Debug, PartialEq)]
pub struct Action {
    pub button: u8,
    pub cmd: Vec<char>,
    pub start: usize,
    pub end: usize,
}

/// Mathematical form of a text command.
pub ghost struct TextCommandView {
    pub string: Seq<char>,
    pub fg: Color,
    pub bg: Color,
    pub start: int,
    pub end: int,
}

/// Mathematical form of a rule command.
pub ghost struct LineCommandView {
    pub color: Color,
    pub start: int,
    pub end: int,
}

/// Mathematical form of a draw command.
pub ghost enum CommandView {
    Text(TextCommandView),
    Underline(LineCommandView),
    Overline(LineCommandView),
}

/// Mathematical form of a clickable region.
pub ghost struct ActionView {
    pub button: u8,
    pub cmd: Seq<char>,
    pub start: int,
    pub end: int,
}

impl View for TextCommand {
    type V = TextCommandView;

    open spec fn view(&self) -> TextCommandView {
        TextCommandView {
            string: self.string@,
            fg: self.fg,
            bg: self.bg,
            start: self.start as int,
            end: self.end as int,
        }
    }
}

impl View for LineCommand {
    type V = LineCommandView;

    open spec fn view(&self) -> LineCommandView {
        LineCommandView { color: self.color, start: self.start as int, end: self.end as int }
    }
}

impl View for Command {
    type V = CommandView;

    open spec fn view(&self) -> CommandView {
        match self {
            Command::Text(t) => CommandView::Text(t@),
            Command::Underline(l) => CommandView::Underline(l@),
            Command::Overline(l) => CommandView::Overline(l@),
        }
    }
}

impl View for Action {
    type V = ActionView;

    open spec fn view(&self) -> ActionView {
        ActionView {
            button: self.button,
            cmd: self.cmd@,
            start: self.start as int,
            end: self.end as int,
        }
    }
}

/// The views of a sequence of draw commands.
pub open spec fn command_views(s: Seq<Command>) -> Seq<CommandView> {
    s.map_values(|c: Command| c@)
}

/// The views of a sequence of clickable regions.
pub open spec fn action_views(s: Seq<Action>) -> Seq<ActionView> {
    s.map_values(|a: Action| a@)
}

/// The views of a sequence of parsed parts.
pub open spec fn part_views(s: Seq<StyledStringPart>) -> Seq<PartView> {
    s.map_values(|p: StyledStringPart| p@)
}

/// A text command moved right by `off`.
pub open spec fn text_shift(t: TextCommandView, off: int) -> TextCommandView {
    TextCommandView { start: t.start + off, end: t.end + off, ..t }
}

/// A rule command moved right by `off`.
pub open spec fn line_shift(l: LineCommandView, off: int) -> LineCommandView {
    LineCommandView { start: l.start + off, end: l.end + off, ..l }
}

/// A draw command moved right by `off`.
pub open spec fn cmd_shift(c: CommandView, off: int) -> CommandView {
    match c {
        CommandView::Text(t) => CommandView::Text(text_shift(t, off)),
        CommandView::Underline(l) => CommandView::Underline(line_shift(l, off)),
        CommandView::Overline(l) => CommandView::Overline(line_shift(l, off)),
    }
}

/// A clickable region moved right by `off`.
pub open spec fn action_shift(a: ActionView, off: int) -> ActionView {
    ActionView { start: a.start + off, end: a.end + off, ..a }
}

/// Whether a draw command can be moved right by `off` within the
/// machine word.
pub open spec fn cmd_fits_shift(c: CommandView, off: int) -> bool {
    match c {
        CommandView::Text(t) => t.start + off <= usize::MAX && t.end + off <= usize::MAX,
        CommandView::Underline(l) => l.start + off <= usize::MAX && l.end + off <= usize::MAX,
        CommandView::Overline(l) => l.start + off <= usize::MAX && l.end + off <= usize::MAX,
    }
}

impl LineCommand {
    /// Move the rule right by `offset`.
    pub fn offset(&mut self, offset: usize)
        requires
            old(self).start + offset <= usize::MAX,
            old(self).end + offset <= usize::MAX,
        ensures
            final(self)@ == line_shift(old(self)@, offset as int),
    {
        self.start += offset;
        self.end += offset;
    }

    /// The rule moved right by `offset`.
    pub fn into_offset(self, offset: usize) -> (r: LineCommand)
        requires
            self.start + offset <= usize::MAX,
            self.end + offset <= usize::MAX,
        ensures
            r@ == line_shift(self@, offset as int),
    {
        let mut this = self;
        this.offset(offset);
        this
    }
}

impl TextCommand {
    /// Move the span right by `offset`.
    pub fn offset(&mut self, offset: usize)
        requires
            old(self).start + offset <= usize::MAX,
            old(self).end + offset <= usize::MAX,
        ensures
            final(self)@ == text_shift(old(self)@, offset as int),
    {
        self.start += offset;
        self.end += offset;
    }

    /// The span moved right by `offset`.
    pub fn into_offset(self, offset: usize) -> (r: TextCommand)
        requires
            self.start + offset <= usize::MAX,
            self.end + offset <= usize::MAX,
        ensures
            r@ == text_shift(self@, offset as int),
    {
        let mut this = self;
        this.offset(offset);
        this
    }
}

impl Command {
    /// The command moved right by `offset`.
    pub fn into_offset(self, offset: usize) -> (r: Command)
        requires
            cmd_fits_shift(self@, offset as int),
        ensures
            r@ == cmd_shift(self@, offset as int),
    {
        match self {
            Command::Text(t) => Command::Text(t.into_offset(offset)),
            Command::Underline(l) => Command::Underline(l.into_offset(offset)),
            Command::Overline(l) => Command::Overline(l.into_offset(offset)),
        }
    }
}

impl Action {
    /// Move the region right by `offset`.
    pub fn offset(&mut self, offset: usize)
        requires
            old(self).start + offset <= usize::MAX,
            old(self).end + offset <= usize::MAX,
        ensures
            final(self)@ == action_shift(old(self)@, offset as int),
    {
        self.start += offset;
        self.end += offset;
    }

    /// The region moved right by `offset`.
    pub fn into_offset(self, offset: usize) -> (r: Action)
        requires
            self.start + offset <= usize::MAX,
            self.end + offset <= usize::MAX,
        ensures
            r@ == action_shift(self@, offset as int),
    {
        let mut this = self;
        this.offset(offset);
        this
    }
}

/// A clickable region that was opened but not yet closed.
pub ghost struct PendingActionView {
    pub button: u8,
    pub cmd: Seq<char>,
    pub start: int,
}

/// The walk state of the layout engine.
pub ghost struct LayoutState {
    /// Active alignment lane.
    pub align: Align,
    /// Colors in effect for subsequent text.
    pub fg: Color,
    pub bg: Color,
    /// Cursor per lane, from the lane's own origin.
    pub lcur: int,
    pub ccur: int,
    pub rcur: int,
    /// At most one pending clickable region, global across lanes.
    pub pending: Option<PendingActionView>,
    /// Pending decoration records: the lane they were opened in and
    /// their start cursor.
    pub pending_underline: Option<(Align, int)>,
    pub pending_overline: Option<(Align, int)>,
    /// Commands emitted so far, per lane, in source order.
    pub left: Seq<CommandView>,
    pub center: Seq<CommandView>,
    pub right: Seq<CommandView>,
    /// Regions emitted so far, per lane, in source order.
    pub left_actions: Seq<ActionView>,
    pub center_actions: Seq<ActionView>,
    pub right_actions: Seq<ActionView>,
    /// How many text parts the walk has consumed.
    pub texts: int,
}

/// The state the walk starts in.
pub open spec fn init_state(default_fg: Color, default_bg: Color) -> LayoutState {
    LayoutState {
        align: Align::Left,
        fg: default_fg,
        bg: default_bg,
        lcur: 0,
        ccur: 0,
        rcur: 0,
        pending: None,
        pending_underline: None,
        pending_overline: None,
        left: Seq::empty(),
        center: Seq::empty(),
        right: Seq::empty(),
        left_actions: Seq::empty(),
        center_actions: Seq::empty(),
        right_actions: Seq::empty(),
        texts: 0,
    }
}

/// The cursor of lane `a`.
pub open spec fn cur_of(st: LayoutState, a: Align) -> int {
    match a {
        Align::Left => st.lcur,
        Align::Center => st.ccur,
        Align::Right => st.rcur,
    }
}

/// `st` with lane `a`'s cursor set to `v`.
pub open spec fn with_cur(st: LayoutState, a: Align, v: int) -> LayoutState {
    match a {
        Align::Left => LayoutState { lcur: v, ..st },
        Align::Center => LayoutState { ccur: v, ..st },
        Align::Right => LayoutState { rcur: v, ..st },
    }
}

/// `st` with `c` appended to lane `a`'s commands.
pub open spec fn push_cmd(st: LayoutState, a: Align, c: CommandView) -> LayoutState {
    match a {
        Align::Left => LayoutState { left: st.left.push(c), ..st },
        Align::Center => LayoutState { center: st.center.push(c), ..st },
        Align::Right => LayoutState { right: st.right.push(c), ..st },
    }
}

/// `st` with `r` appended to lane `a`'s regions.
pub open spec fn push_action(st: LayoutState, a: Align, r: ActionView) -> LayoutState {
    match a {
        Align::Left => LayoutState { left_actions: st.left_actions.push(r), ..st },
        Align::Center => LayoutState { center_actions: st.center_actions.push(r), ..st },
        Align::Right => LayoutState { right_actions: st.right_actions.push(r), ..st },
    }
}

/// How a color reference resolves against the configured default and
/// the color in effect.
pub open spec fn resolve_color(r: crate::parse::Color, default: Color, now: Color) -> Color {
    match r {
        crate::parse::Color::UseDefault => default,
        crate::parse::Color::Unchanged => now,
        crate::parse::Color::New(c) => c,
    }
}

/// One step of the walk over part `p`.
///
/// Text advances the lane cursor by the part's measured width and
/// emits a text command. A second action open while one is pending is
/// ignored, as is a lane switch while one is pending. An attribute
/// `On` while the record is already open keeps the earlier record; a
/// close emits a rule into the lane the record was opened in, at the
/// configured foreground color.
pub open spec fn layout_step(
    st: LayoutState,
    p: PartView,
    widths: Seq<usize>,
    default_fg: Color,
    default_bg: Color,
) -> LayoutState {
    match p {
        PartView::Text(s) => {
            let w = widths[st.texts] as int;
            let cur = cur_of(st, st.align);
            let cmd = CommandView::Text(TextCommandView {
                string: s,
                fg: st.fg,
                bg: st.bg,
                start: cur,
                end: cur + w,
            });
            let st1 = push_cmd(st, st.align, cmd);
            let st2 = with_cur(st1, st1.align, cur + w);
            LayoutState { texts: st.texts + 1, ..st2 }
        },
        PartView::Style(style) => LayoutState {
            fg: resolve_color(style.fg, default_fg, st.fg),
            bg: resolve_color(style.bg, default_bg, st.bg),
            ..st
        },
        PartView::Action { button, cmd } => {
            if st.pending is None {
                LayoutState {
                    pending: Some(PendingActionView {
                        button,
                        cmd,
                        start: cur_of(st, st.align),
                    }),
                    ..st
                }
            } else {
                st
            }
        },
        PartView::ActionEnd => {
            match st.pending {
                Some(p) => {
                    let region = ActionView {
                        button: p.button,
                        cmd: p.cmd,
                        start: p.start,
                        end: cur_of(st, st.align),
                    };
                    push_action(LayoutState { pending: None, ..st }, st.align, region)
                },
                None => st,
            }
        },
        PartView::Swap => LayoutState { fg: st.bg, bg: st.fg, ..st },
        PartView::Align(a) => {
            if st.pending is Some {
                st
            } else {
                LayoutState { align: a, ..st }
            }
        },
        PartView::Offset(o) => with_cur(st, st.align, cur_of(st, st.align) + o),
        PartView::Attribute { attribute, action } => {
            let open = match attribute {
                Attribute::Underline => st.pending_underline,
                Attribute::Overline => st.pending_overline,
            };
            match action {
                AttributeAction::On => {
                    if open is None {
                        attr_open(st, attribute)
                    } else {
                        st
                    }
                },
                AttributeAction::Off => {
                    match open {
                        Some(rec) => attr_close(st, attribute, rec, default_fg),
                        None => st,
                    }
                },
                AttributeAction::Toggle => {
                    match open {
                        Some(rec) => attr_close(st, attribute, rec, default_fg),
                        None => attr_open(st, attribute),
                    }
                },
            }
        },
    }
}

/// Open a decoration record for `attribute` in the active lane.
pub open spec fn attr_open(st: LayoutState, attribute: Attribute) -> LayoutState {
    let rec = Some((st.align, cur_of(st, st.align)));
    match attribute {
        Attribute::Underline => LayoutState { pending_underline: rec, ..st },
        Attribute::Overline => LayoutState { pending_overline: rec, ..st },
    }
}

/// Close the decoration record `rec`, emitting a rule into the lane it
/// was opened in, ending at that lane's current cursor.
pub open spec fn attr_close(
    st: LayoutState,
    attribute: Attribute,
    rec: (Align, int),
    default_fg: Color,
) -> LayoutState {
    let line = LineCommandView { color: default_fg, start: rec.1, end: cur_of(st, rec.0) };
    let cmd = match attribute {
        Attribute::Underline => CommandView::Underline(line),
        Attribute::Overline => CommandView::Overline(line),
    };
    let st1 = match attribute {
        Attribute::Underline => LayoutState { pending_underline: None, ..st },
        Attribute::Overline => LayoutState { pending_overline: None, ..st },
    };
    push_cmd(st1, rec.0, cmd)
}

/// The walk state after the first `k` parts.
pub open spec fn layout_fold(
    parts: Seq<PartView>,
    widths: Seq<usize>,
    default_fg: Color,
    default_bg: Color,
    k: int,
) -> LayoutState
    decreases k,
{
    if k <= 0 {
        init_state(default_fg, default_bg)
    } else {
        layout_step(
            layout_fold(parts, widths, default_fg, default_bg, k - 1),
            parts[k - 1],
            widths,
            default_fg,
            default_bg,
        )
    }
}

/// How many text parts a sequence holds.
pub open spec fn count_texts(parts: Seq<PartView>) -> nat
    decreases parts.len(),
{
    if parts.len() == 0 {
        0
    } else {
        count_texts(parts.drop_last()) + (if parts.last() is Text {
            1nat
        } else {
            0nat
        })
    }
}

/// The layout's result: all draw commands and all clickable regions,
/// lanes concatenated left, center, right, each shifted by its lane's
/// anchor offset.
pub ghost struct LayoutView {
    pub commands: Seq<CommandView>,
    pub actions: Seq<ActionView>,
}

/// Close a pending region at end of input, into the active lane at its
/// current cursor.
pub open spec fn close_trailing(st: LayoutState) -> LayoutState {
    match st.pending {
        Some(p) => {
            let region = ActionView {
                button: p.button,
                cmd: p.cmd,
                start: p.start,
                end: cur_of(st, st.align),
            };
            push_action(LayoutState { pending: None, ..st }, st.align, region)
        },
        None => st,
    }
}

/// Finalize a walk state: close a trailing region, drop open
/// decoration records, and shift each lane against the surface.
pub open spec fn finalize(st: LayoutState, surface_width: int) -> LayoutView {
    let st1 = close_trailing(st);
    let loff = MARGIN as int;
    let coff = (surface_width - st1.ccur) / 2;
    let roff = surface_width - MARGIN - st1.rcur;
    LayoutView {
        commands: st1.left.map_values(|c: CommandView| cmd_shift(c, loff))
            + st1.center.map_values(|c: CommandView| cmd_shift(c, coff))
            + st1.right.map_values(|c: CommandView| cmd_shift(c, roff)),
        actions: st1.left_actions.map_values(|a: ActionView| action_shift(a, loff))
            + st1.center_actions.map_values(|a: ActionView| action_shift(a, coff))
            + st1.right_actions.map_values(|a: ActionView| action_shift(a, roff)),
    }
}

/// The layout of a part sequence on a surface of the given width.
pub open spec fn spec_layout(
    parts: Seq<PartView>,
    widths: Seq<usize>,
    default_fg: Color,
    default_bg: Color,
    surface_width: int,
) -> LayoutView {
    finalize(
        layout_fold(parts, widths, default_fg, default_bg, parts.len() as int),
        surface_width,
    )
}

/// Whether the layout's positions all fit the machine and the surface:
/// the left lane may not run past the machine word, and the center and
/// right lanes must fit the surface so their anchor offsets are
/// defined.
pub open spec fn layout_fits(
    parts: Seq<PartView>,
    widths: Seq<usize>,
    default_fg: Color,
    default_bg: Color,
    surface_width: int,
) -> bool {
    let fin = layout_fold(parts, widths, default_fg, default_bg, parts.len() as int);
    &&& fin.lcur + MARGIN <= usize::MAX
    &&& fin.ccur <= surface_width
    &&& MARGIN <= surface_width
    &&& fin.rcur + MARGIN <= surface_width
}

/// A draw command lies within `[0, cur]`.
pub open spec fn cmd_bounded(c: CommandView, cur: int) -> bool {
    match c {
        CommandView::Text(t) => 0 <= t.start <= t.end <= cur,
        CommandView::Underline(l) => 0 <= l.start <= l.end <= cur,
        CommandView::Overline(l) => 0 <= l.start <= l.end <= cur,
    }
}

/// A clickable region lies within `[0, cur]`.
pub open spec fn action_bounded(a: ActionView, cur: int) -> bool {
    0 <= a.start <= a.end <= cur
}

/// The walk's invariant: cursors are nonnegative, every emitted item
/// lies within its lane's cursor, and every pending record starts at
/// or before its lane's cursor.
pub open spec fn st_wf(st: LayoutState) -> bool {
    &&& 0 <= st.lcur
    &&& 0 <= st.ccur
    &&& 0 <= st.rcur
    &&& forall|i: int| 0 <= i < st.left.len() ==> cmd_bounded(#[trigger] st.left[i], st.lcur)
    &&& forall|i: int| 0 <= i < st.center.len() ==> cmd_bounded(#[trigger] st.center[i], st.ccur)
    &&& forall|i: int| 0 <= i < st.right.len() ==> cmd_bounded(#[trigger] st.right[i], st.rcur)
    &&& forall|i: int| 0 <= i < st.left_actions.len() ==> action_bounded(
        #[trigger] st.left_actions[i],
        st.lcur,
    )
    &&& forall|i: int| 0 <= i < st.center_actions.len() ==> action_bounded(
        #[trigger] st.center_actions[i],
        st.ccur,
    )
    &&& forall|i: int| 0 <= i < st.right_actions.len() ==> action_bounded(
        #[trigger] st.right_actions[i],
        st.rcur,
    )
    &&& match st.pending {
        Some(p) => 0 <= p.start <= cur_of(st, st.align),
        None => true,
    }
    &&& match st.pending_underline {
        Some(rec) => 0 <= rec.1 <= cur_of(st, rec.0),
        None => true,
    }
    &&& match st.pending_overline {
        Some(rec) => 0 <= rec.1 <= cur_of(st, rec.0),
        None => true,
    }
}

/// One step keeps the invariant, never moves a cursor left, and
/// consumes one width exactly on a text part.
proof fn lemma_step_wf(
    st: LayoutState,
    p: PartView,
    widths: Seq<usize>,
    default_fg: Color,
    default_bg: Color,
)
    requires
        st_wf(st),
    ensures
        st_wf(layout_step(st, p, widths, default_fg, default_bg)),
        st.lcur <= layout_step(st, p, widths, default_fg, default_bg).lcur,
        st.ccur <= layout_step(st, p, widths, default_fg, default_bg).ccur,
        st.rcur <= layout_step(st, p, widths, default_fg, default_bg).rcur,
        layout_step(st, p, widths, default_fg, default_bg).texts == st.texts + (
        if p is Text {
            1int
        } else {
            0int
        }),
{
}

/// The invariant holds after any number of steps.
proof fn lemma_fold_wf(
    parts: Seq<PartView>,
    widths: Seq<usize>,
    default_fg: Color,
    default_bg: Color,
    k: int,
)
    ensures
        st_wf(layout_fold(parts, widths, default_fg, default_bg, k)),
    decreases k,
{
    if k <= 0 {
    } else {
        lemma_fold_wf(parts, widths, default_fg, default_bg, k - 1);
        lemma_step_wf(
            layout_fold(parts, widths, default_fg, default_bg, k - 1),
            parts[k - 1],
            widths,
            default_fg,
            default_bg,
        );
    }
}

/// Cursors never move left as the walk goes on.
proof fn lemma_fold_mono(
    parts: Seq<PartView>,
    widths: Seq<usize>,
    default_fg: Color,
    default_bg: Color,
    k: int,
    m: int,
)
    requires
        0 <= k <= m,
    ensures
        layout_fold(parts, widths, default_fg, default_bg, k).lcur <= layout_fold(
            parts, widths, default_fg, default_bg, m).lcur,
        layout_fold(parts, widths, default_fg, default_bg, k).ccur <= layout_fold(
            parts, widths, default_fg, default_bg, m).ccur,
        layout_fold(parts, widths, default_fg, default_bg, k).rcur <= layout_fold(
            parts, widths, default_fg, default_bg, m).rcur,
    decreases m - k,
{
    if m > k {
        lemma_fold_mono(parts, widths, default_fg, default_bg, k, m - 1);
        lemma_fold_wf(parts, widths, default_fg, default_bg, m - 1);
        lemma_step_wf(
            layout_fold(parts, widths, default_fg, default_bg, m - 1),
            parts[m - 1],
            widths,
            default_fg,
            default_bg,
        );
    }
}

/// After `k` steps the walk has consumed exactly the text parts among
/// the first `k` parts.
proof fn lemma_fold_texts(
    parts: Seq<PartView>,
    widths: Seq<usize>,
    default_fg: Color,
    default_bg: Color,
    k: int,
)
    requires
        0 <= k <= parts.len(),
    ensures
        layout_fold(parts, widths, default_fg, default_bg, k).texts == count_texts(
            parts.take(k)),
    decreases k,
{
    if k > 0 {
        lemma_fold_texts(parts, widths, default_fg, default_bg, k - 1);
        lemma_fold_wf(parts, widths, default_fg, default_bg, k - 1);
        lemma_step_wf(
            layout_fold(parts, widths, default_fg, default_bg, k - 1),
            parts[k - 1],
            widths,
            default_fg,
            default_bg,
        );
        assert(parts.take(k).drop_last() =~= parts.take(k - 1));
        assert(parts.take(k).last() == parts[k - 1]);
    }
}

/// A prefix never holds more text parts than the whole.
proof fn lemma_count_take_le(parts: Seq<PartView>, k: int)
    requires
        0 <= k <= parts.len(),
    ensures
        count_texts(parts.take(k)) <= count_texts(parts),
    decreases parts.len() - k,
{
    if k < parts.len() {
        assert(parts.take(k + 1).drop_last() =~= parts.take(k));
        assert(parts.take(k + 1).last() == parts[k]);
        lemma_count_take_le(parts, k + 1);
    } else {
        assert(parts.take(k) =~= parts);
    }
}

/// A clickable region opened during the walk and not yet closed.
pub struct PendingAction {
    pub button: u8,
    pub cmd: Vec<char>,
    pub start: usize,
}

impl View for PendingAction {
    type V = PendingActionView;

    open spec fn view(&self) -> PendingActionView {
        PendingActionView { button: self.button, cmd: self.cmd@, start: self.start as int }
    }
}

/// Whether the executable walk variables realize the walk state `st`.
spec fn walk_matches(
    st: LayoutState,
    align: Align,
    fg: Color,
    bg: Color,
    lcur: usize,
    ccur: usize,
    rcur: usize,
    pending: Option<PendingAction>,
    pu: Option<(Align, usize)>,
    po: Option<(Align, usize)>,
    left: Seq<Command>,
    center: Seq<Command>,
    right: Seq<Command>,
    lefta: Seq<Action>,
    centera: Seq<Action>,
    righta: Seq<Action>,
    ti: usize,
) -> bool {
    &&& st.align == align
    &&& st.fg == fg
    &&& st.bg == bg
    &&& st.lcur == lcur as int
    &&& st.ccur == ccur as int
    &&& st.rcur == rcur as int
    &&& st.pending == (match pending {
        Some(pa) => Some(pa@),
        None => None::<PendingActionView>,
    })
    &&& st.pending_underline == (match pu {
        Some(r) => Some((r.0, r.1 as int)),
        None => None::<(Align, int)>,
    })
    &&& st.pending_overline == (match po {
        Some(r) => Some((r.0, r.1 as int)),
        None => None::<(Align, int)>,
    })
    &&& st.left == command_views(left)
    &&& st.center == command_views(center)
    &&& st.right == command_views(right)
    &&& st.left_actions == action_views(lefta)
    &&& st.center_actions == action_views(centera)
    &&& st.right_actions == action_views(righta)
    &&& st.texts == ti as int
}

/// Views distribute over appending one command.
proof fn lemma_cmd_views_push(s: Seq<Command>, c: Command)
    ensures
        command_views(s.push(c)) == command_views(s).push(c@),
{
    assert forall|i: int| 0 <= i < s.push(c).len() implies command_views(s.push(c))[i]
        == command_views(s).push(c@)[i] by {
        if i < s.len() {
            assert(s.push(c)[i] == s[i]);
        } else {
            assert(s.push(c)[i] == c);
        }
    }
    assert(command_views(s.push(c)) =~= command_views(s).push(c@));
}

/// Views distribute over appending one region.
proof fn lemma_action_views_push(s: Seq<Action>, a: Action)
    ensures
        action_views(s.push(a)) == action_views(s).push(a@),
{
    assert forall|i: int| 0 <= i < s.push(a).len() implies action_views(s.push(a))[i]
        == action_views(s).push(a@)[i] by {
        if i < s.len() {
            assert(s.push(a)[i] == s[i]);
        } else {
            assert(s.push(a)[i] == a);
        }
    }
    assert(action_views(s.push(a)) =~= action_views(s).push(a@));
}

/// Views distribute over concatenation of commands.
proof fn lemma_cmd_views_concat(a: Seq<Command>, b: Seq<Command>)
    ensures
        command_views(a + b) == command_views(a) + command_views(b),
{
    assert forall|i: int| 0 <= i < (a + b).len() implies command_views(a + b)[i]
        == (command_views(a) + command_views(b))[i] by {
        if i < a.len() {
            assert((a + b)[i] == a[i]);
        } else {
            assert((a + b)[i] == b[i - a.len()]);
        }
    }
    assert(command_views(a + b) =~= command_views(a) + command_views(b));
}

/// Views distribute over concatenation of regions.
proof fn lemma_action_views_concat(a: Seq<Action>, b: Seq<Action>)
    ensures
        action_views(a + b) == action_views(a) + action_views(b),
{
    assert forall|i: int| 0 <= i < (a + b).len() implies action_views(a + b)[i]
        == (action_views(a) + action_views(b))[i] by {
        if i < a.len() {
            assert((a + b)[i] == a[i]);
        } else {
            assert((a + b)[i] == b[i - a.len()]);
        }
    }
    assert(action_views(a + b) =~= action_views(a) + action_views(b));
}

/// All commands moved right by `off`.
fn shift_commands(cmds: Vec<Command>, off: usize) -> (r: Vec<Command>)
    requires
        forall|i: int| 0 <= i < cmds@.len() ==> cmd_fits_shift((#[trigger] cmds@[i])@, off as int),
    ensures
        command_views(r@) == command_views(cmds@).map_values(
            |c: CommandView| cmd_shift(c, off as int)),
{
    let ghost orig = cmds@;
    let ghost goal = command_views(orig).map_values(|c: CommandView| cmd_shift(c, off as int));
    let mut cmds = cmds;
    let mut r: Vec<Command> = Vec::new();
    while cmds.len() > 0
        invariant
            forall|i: int| 0 <= i < orig.len() ==> cmd_fits_shift(
                (#[trigger] orig[i])@, off as int),
            goal == command_views(orig).map_values(|c: CommandView| cmd_shift(c, off as int)),
            cmds@.len() <= orig.len(),
            cmds@ == orig.subrange(orig.len() - cmds@.len(), orig.len() as int),
            command_views(r@) == goal.take(orig.len() - cmds@.len()),
        decreases cmds@.len(),
    {
        let ghost j = orig.len() - cmds@.len();
        let c = cmds.remove(0);
        proof {
            assert(c == orig[j]);
            assert(cmds@ =~= orig.subrange(j + 1, orig.len() as int));
        }
        let shifted = c.into_offset(off);
        let ghost rpre = r@;
        r.push(shifted);
        proof {
            assert(r@ == rpre.push(shifted));
            assert(command_views(rpre).len() == rpre.len());
            assert(goal.len() == orig.len());
            assert(rpre.len() == j);
            assert forall|k: int| 0 <= k < r@.len() implies command_views(r@)[k] == goal.take(
                j + 1)[k] by {
                assert(command_views(r@)[k] == r@[k]@);
                if k < j {
                    assert(r@[k] == rpre[k]);
                    assert(command_views(rpre)[k] == rpre[k]@);
                    assert(command_views(rpre)[k] == goal.take(j)[k]);
                    assert(goal.take(j)[k] == goal[k]);
                } else {
                    assert(r@[k] == shifted);
                    assert(goal[j] == cmd_shift(command_views(orig)[j], off as int));
                    assert(command_views(orig)[j] == orig[j]@);
                }
            }
            assert(command_views(r@) =~= goal.take(j + 1));
        }
    }
    proof {
        assert(goal.take(orig.len() as int) =~= goal);
    }
    r
}

/// All regions moved right by `off`.
fn shift_actions(acts: Vec<Action>, off: usize) -> (r: Vec<Action>)
    requires
        forall|i: int| 0 <= i < acts@.len() ==> (#[trigger] acts@[i]).start + off <= usize::MAX
            && acts@[i].end + off <= usize::MAX,
    ensures
        action_views(r@) == action_views(acts@).map_values(
            |a: ActionView| action_shift(a, off as int)),
{
    let ghost orig = acts@;
    let ghost goal = action_views(orig).map_values(|a: ActionView| action_shift(a, off as int));
    let mut acts = acts;
    let mut r: Vec<Action> = Vec::new();
    while acts.len() > 0
        invariant
            forall|i: int| 0 <= i < orig.len() ==> (#[trigger] orig[i]).start + off <= usize::MAX
                && orig[i].end + off <= usize::MAX,
            goal == action_views(orig).map_values(|a: ActionView| action_shift(a, off as int)),
            acts@.len() <= orig.len(),
            acts@ == orig.subrange(orig.len() - acts@.len(), orig.len() as int),
            action_views(r@) == goal.take(orig.len() - acts@.len()),
        decreases acts@.len(),
    {
        let ghost j = orig.len() - acts@.len();
        let a = acts.remove(0);
        proof {
            assert(a == orig[j]);
            assert(acts@ =~= orig.subrange(j + 1, orig.len() as int));
        }
        let shifted = a.into_offset(off);
        let ghost rpre = r@;
        r.push(shifted);
        proof {
            assert(r@ == rpre.push(shifted));
            assert(action_views(rpre).len() == rpre.len());
            assert(goal.len() == orig.len());
            assert(rpre.len() == j);
            assert forall|k: int| 0 <= k < r@.len() implies action_views(r@)[k] == goal.take(
                j + 1)[k] by {
                assert(action_views(r@)[k] == r@[k]@);
                if k < j {
                    assert(r@[k] == rpre[k]);
                    assert(action_views(rpre)[k] == rpre[k]@);
                    assert(action_views(rpre)[k] == goal.take(j)[k]);
                    assert(goal.take(j)[k] == goal[k]);
                } else {
                    assert(r@[k] == shifted);
                    assert(goal[j] == action_shift(action_views(orig)[j], off as int));
                    assert(action_views(orig)[j] == orig[j]@);
                }
            }
            assert(action_views(r@) =~= goal.take(j + 1));
        }
    }
    proof {
        assert(goal.take(orig.len() as int) =~= goal);
    }
    r
}

/// Lay out a parsed line on a surface of the given width.
///
/// `widths` holds the measured pixel width of each text part, in
/// order. The result is exactly [`spec_layout`]: the draw commands and
/// the clickable regions, each lane shifted against the surface and
/// concatenated left, center, right.
pub fn layout(
    parts: Vec<StyledStringPart>,
    widths: &Vec<usize>,
    default_fg: Color,
    default_bg: Color,
    surface_width: usize,
) -> (r: (Vec<Command>, Vec<Action>))
    requires
        widths@.len() == count_texts(part_views(parts@)),
        layout_fits(part_views(parts@), widths@, default_fg, default_bg, surface_width as int),
    ensures
        command_views(r.0@) == spec_layout(
            part_views(parts@), widths@, default_fg, default_bg, surface_width as int).commands,
        action_views(r.1@) == spec_layout(
            part_views(parts@), widths@, default_fg, default_bg, surface_width as int).actions,
{
    let ghost pviews = part_views(parts@);
    let ghost n = pviews.len();
    let ghost wseq = widths@;

    let mut parts = parts;
    let mut align = Align::Left;
    let mut fg = default_fg;
    let mut bg = default_bg;
    let mut lcur: usize = 0;
    let mut ccur: usize = 0;
    let mut rcur: usize = 0;
    let mut pending: Option<PendingAction> = None;
    let mut pu: Option<(Align, usize)> = None;
    let mut po: Option<(Align, usize)> = None;
    let mut left: Vec<Command> = Vec::new();
    let mut center: Vec<Command> = Vec::new();
    let mut right: Vec<Command> = Vec::new();
    let mut lefta: Vec<Action> = Vec::new();
    let mut centera: Vec<Action> = Vec::new();
    let mut righta: Vec<Action> = Vec::new();
    let mut ti: usize = 0;
    let ghost mut k: int = 0;

    proof {
        assert forall|i: int| 0 <= i < parts@.len() implies (#[trigger] parts@[i])@
            == pviews[i] by {
            assert(part_views(parts@)[i] == parts@[i]@);
        }
        assert(command_views(left@) =~= Seq::<CommandView>::empty());
        assert(command_views(center@) =~= Seq::<CommandView>::empty());
        assert(command_views(right@) =~= Seq::<CommandView>::empty());
        assert(action_views(lefta@) =~= Seq::<ActionView>::empty());
        assert(action_views(centera@) =~= Seq::<ActionView>::empty());
        assert(action_views(righta@) =~= Seq::<ActionView>::empty());
    }
    while parts.len() > 0
        invariant
            n == pviews.len(),
            0 <= k,
            k + parts@.len() == n,
            forall|i: int| 0 <= i < parts@.len() ==> (#[trigger] parts@[i])@
                == pviews[k + i],
            wseq == widths@,
            wseq.len() == count_texts(pviews),
            layout_fits(pviews, wseq, default_fg, default_bg, surface_width as int),
            walk_matches(
                layout_fold(pviews, wseq, default_fg, default_bg, k),
                align, fg, bg, lcur, ccur, rcur, pending, pu, po,
                left@, center@, right@, lefta@, centera@, righta@, ti,
            ),
        decreases parts@.len(),
    {
        let ghost st = layout_fold(pviews, wseq, default_fg, default_bg, k);
        let ghost st2 = layout_fold(pviews, wseq, default_fg, default_bg, k + 1);
        let ghost pre = parts@;
        let part = parts.remove(0);
        proof {
            assert(part == pre[0]);
            assert(part@ == pviews[k]);
            assert(parts@ =~= pre.skip(1));
            assert forall|i: int| 0 <= i < parts@.len() implies (#[trigger] parts@[i])@
                == pviews[k + 1 + i] by {
                assert(parts@[i] == pre[i + 1]);
            }
            assert(st2 == layout_step(st, pviews[k], wseq, default_fg, default_bg));
            lemma_fold_wf(pviews, wseq, default_fg, default_bg, k);
            lemma_step_wf(st, pviews[k], wseq, default_fg, default_bg);
            lemma_fold_mono(pviews, wseq, default_fg, default_bg, k + 1, n as int);
        }
        match part {
            StyledStringPart::Text(s) => {
                proof {
                    lemma_fold_texts(pviews, wseq, default_fg, default_bg, k);
                    lemma_fold_texts(pviews, wseq, default_fg, default_bg, k + 1);
                    lemma_count_take_le(pviews, k + 1);
                }
                let w = widths[ti];
                let cur = match align {
                    Align::Left => lcur,
                    Align::Center => ccur,
                    Align::Right => rcur,
                };
                proof {
                    assert(cur + w <= usize::MAX);
                }
                let newend = cur + w;
                let wl = widths.len();
                proof {
                    assert(ti < wl);
                }
                let cmd = Command::Text(TextCommand { string: s, fg, bg, start: cur, end: newend });
                proof {
                    match align {
                        Align::Left => lemma_cmd_views_push(left@, cmd),
                        Align::Center => lemma_cmd_views_push(center@, cmd),
                        Align::Right => lemma_cmd_views_push(right@, cmd),
                    }
                }
                match align {
                    Align::Left => {
                        left.push(cmd);
                        lcur = newend;
                    },
                    Align::Center => {
                        center.push(cmd);
                        ccur = newend;
                    },
                    Align::Right => {
                        right.push(cmd);
                        rcur = newend;
                    },
                }
                ti = ti + 1;
            },
            StyledStringPart::Style(style) => {
                let nfg = style.foreground_color().into_color(default_fg, fg);
                let nbg = style.background_color().into_color(default_bg, bg);
                fg = nfg;
                bg = nbg;
            },
            StyledStringPart::Action(a) => {
                if pending.is_none() {
                    let cur = match align {
                        Align::Left => lcur,
                        Align::Center => ccur,
                        Align::Right => rcur,
                    };
                    let (button, cmd) = a.into_tuple();
                    pending = Some(PendingAction { button, cmd, start: cur });
                }
            },
            StyledStringPart::ActionEnd => {
                let cur = match align {
                    Align::Left => lcur,
                    Align::Center => ccur,
                    Align::Right => rcur,
                };
                let prev = pending;
                pending = None;
                match prev {
                    Some(pa) => {
                        let region = Action {
                            button: pa.button,
                            cmd: pa.cmd,
                            start: pa.start,
                            end: cur,
                        };
                        proof {
                            match align {
                                Align::Left => lemma_action_views_push(lefta@, region),
                                Align::Center => lemma_action_views_push(centera@, region),
                                Align::Right => lemma_action_views_push(righta@, region),
                            }
                        }
                        match align {
                            Align::Left => lefta.push(region),
                            Align::Center => centera.push(region),
                            Align::Right => righta.push(region),
                        }
                    },
                    None => {},
                }
            },
            StyledStringPart::Swap => {
                let t = fg;
                fg = bg;
                bg = t;
            },
            StyledStringPart::Align(a2) => {
                if pending.is_some() {
                    // A lane switch while a region is open is ignored:
                    // a region must lie within one lane.
                } else {
                    align = a2;
                }
            },
            StyledStringPart::Offset(o) => {
                let cur = match align {
                    Align::Left => lcur,
                    Align::Center => ccur,
                    Align::Right => rcur,
                };
                proof {
                    assert(cur + o <= usize::MAX);
                }
                let nc = cur + o;
                match align {
                    Align::Left => lcur = nc,
                    Align::Center => ccur = nc,
                    Align::Right => rcur = nc,
                }
            },
            StyledStringPart::Attribute { attribute, action } => {
                let cur = match align {
                    Align::Left => lcur,
                    Align::Center => ccur,
                    Align::Right => rcur,
                };
                match attribute {
                    Attribute::Underline => {
                        match action {
                            AttributeAction::On => {
                                if pu.is_none() {
                                    pu = Some((align, cur));
                                }
                            },
                            AttributeAction::Off => {
                                let prev = pu;
                                pu = None;
                                match prev {
                                    Some(rec) => {
                                        let lane_cur = match rec.0 {
                                            Align::Left => lcur,
                                            Align::Center => ccur,
                                            Align::Right => rcur,
                                        };
                                        let cmd = Command::Underline(LineCommand {
                                            color: default_fg,
                                            start: rec.1,
                                            end: lane_cur,
                                        });
                                        proof {
                                            match rec.0 {
                                                Align::Left => lemma_cmd_views_push(left@, cmd),
                                                Align::Center => lemma_cmd_views_push(center@, cmd),
                                                Align::Right => lemma_cmd_views_push(right@, cmd),
                                            }
                                        }
                                        match rec.0 {
                                            Align::Left => left.push(cmd),
                                            Align::Center => center.push(cmd),
                                            Align::Right => right.push(cmd),
                                        }
                                    },
                                    None => {},
                                }
                            },
                            AttributeAction::Toggle => {
                                match pu {
                                    Some(rec) => {
                                        pu = None;
                                        let lane_cur = match rec.0 {
                                            Align::Left => lcur,
                                            Align::Center => ccur,
                                            Align::Right => rcur,
                                        };
                                        let cmd = Command::Underline(LineCommand {
                                            color: default_fg,
                                            start: rec.1,
                                            end: lane_cur,
                                        });
                                        proof {
                                            match rec.0 {
                                                Align::Left => lemma_cmd_views_push(left@, cmd),
                                                Align::Center => lemma_cmd_views_push(center@, cmd),
                                                Align::Right => lemma_cmd_views_push(right@, cmd),
                                            }
                                        }
                                        match rec.0 {
                                            Align::Left => left.push(cmd),
                                            Align::Center => center.push(cmd),
                                            Align::Right => right.push(cmd),
                                        }
                                    },
                                    None => {
                                        pu = Some((align, cur));
                                    },
                                }
                            },
                        }
                    },
                    Attribute::Overline => {
                        match action {
                            AttributeAction::On => {
                                if po.is_none() {
                                    po = Some((align, cur));
                                }
                            },
                            AttributeAction::Off => {
                                let prev = po;
                                po = None;
                                match prev {
                                    Some(rec) => {
                                        let lane_cur = match rec.0 {
                                            Align::Left => lcur,
                                            Align::Center => ccur,
                                            Align::Right => rcur,
                                        };
                                        let cmd = Command::Overline(LineCommand {
                                            color: default_fg,
                                            start: rec.1,
                                            end: lane_cur,
                                        });
                                        proof {
                                            match rec.0 {
                                                Align::Left => lemma_cmd_views_push(left@, cmd),
                                                Align::Center => lemma_cmd_views_push(center@, cmd),
                                                Align::Right => lemma_cmd_views_push(right@, cmd),
                                            }
                                        }
                                        match rec.0 {
                                            Align::Left => left.push(cmd),
                                            Align::Center => center.push(cmd),
                                            Align::Right => right.push(cmd),
                                        }
                                    },
                                    None => {},
                                }
                            },
                            AttributeAction::Toggle => {
                                match po {
                                    Some(rec) => {
                                        po = None;
                                        let lane_cur = match rec.0 {
                                            Align::Left => lcur,
                                            Align::Center => ccur,
                                            Align::Right => rcur,
                                        };
                                        let cmd = Command::Overline(LineCommand {
                                            color: default_fg,
                                            start: rec.1,
                                            end: lane_cur,
                                        });
                                        proof {
                                            match rec.0 {
                                                Align::Left => lemma_cmd_views_push(left@, cmd),
                                                Align::Center => lemma_cmd_views_push(center@, cmd),
                                                Align::Right => lemma_cmd_views_push(right@, cmd),
                                            }
                                        }
                                        match rec.0 {
                                            Align::Left => left.push(cmd),
                                            Align::Center => center.push(cmd),
                                            Align::Right => right.push(cmd),
                                        }
                                    },
                                    None => {
                                        po = Some((align, cur));
                                    },
                                }
                            },
                        }
                    },
                }
            },
        }
        proof {
            k = k + 1;
        }
    }

    let ghost stfin = layout_fold(pviews, wseq, default_fg, default_bg, n as int);
    let ghost st1 = close_trailing(stfin);
    proof {
        lemma_fold_wf(pviews, wseq, default_fg, default_bg, n as int);
    }

    // Close a region left open at end of input, at the active lane's
    // final cursor.
    let cur = match align {
        Align::Left => lcur,
        Align::Center => ccur,
        Align::Right => rcur,
    };
    let prev = pending;
    match prev {
        Some(pa) => {
            let region = Action { button: pa.button, cmd: pa.cmd, start: pa.start, end: cur };
            proof {
                match align {
                    Align::Left => lemma_action_views_push(lefta@, region),
                    Align::Center => lemma_action_views_push(centera@, region),
                    Align::Right => lemma_action_views_push(righta@, region),
                }
            }
            match align {
                Align::Left => lefta.push(region),
                Align::Center => centera.push(region),
                Align::Right => righta.push(region),
            }
        },
        None => {},
    }
    proof {
        assert(command_views(left@) == st1.left);
        assert(command_views(center@) == st1.center);
        assert(command_views(right@) == st1.right);
        assert(action_views(lefta@) == st1.left_actions);
        assert(action_views(centera@) == st1.center_actions);
        assert(action_views(righta@) == st1.right_actions);
        assert(st1.lcur == stfin.lcur && st1.ccur == stfin.ccur && st1.rcur == stfin.rcur);
    }

    // Anchor each lane: left at the margin, center centered, right
    // flush against the right edge minus the margin.
    let coff = (surface_width - ccur) / 2;
    let roff = surface_width - MARGIN - rcur;
    proof {
        assert((surface_width - ccur) as int / 2 <= surface_width - ccur) by {
            vstd::arithmetic::div_mod::lemma_fundamental_div_mod(
                (surface_width - ccur) as int, 2);
        };
        assert(0 <= (surface_width - ccur) as int / 2) by {
            vstd::arithmetic::div_mod::lemma_div_is_ordered(
                0, (surface_width - ccur) as int, 2);
        };
        assert forall|i: int| 0 <= i < left@.len() implies cmd_fits_shift(
            (#[trigger] left@[i])@, MARGIN as int) by {
            assert(cmd_bounded(st1.left[i], st1.lcur));
            assert(st1.left[i] == left@[i]@);
        }
        assert forall|i: int| 0 <= i < center@.len() implies cmd_fits_shift(
            (#[trigger] center@[i])@, coff as int) by {
            assert(cmd_bounded(st1.center[i], st1.ccur));
            assert(st1.center[i] == center@[i]@);
        }
        assert forall|i: int| 0 <= i < right@.len() implies cmd_fits_shift(
            (#[trigger] right@[i])@, roff as int) by {
            assert(cmd_bounded(st1.right[i], st1.rcur));
            assert(st1.right[i] == right@[i]@);
        }
        assert forall|i: int| 0 <= i < lefta@.len() implies (#[trigger] lefta@[i]).start
            + MARGIN <= usize::MAX && lefta@[i].end + MARGIN <= usize::MAX by {
            assert(action_bounded(st1.left_actions[i], st1.lcur));
            assert(st1.left_actions[i] == lefta@[i]@);
        }
        assert forall|i: int| 0 <= i < centera@.len() implies (#[trigger] centera@[i]).start
            + coff <= usize::MAX && centera@[i].end + coff <= usize::MAX by {
            assert(action_bounded(st1.center_actions[i], st1.ccur));
            assert(st1.center_actions[i] == centera@[i]@);
        }
        assert forall|i: int| 0 <= i < righta@.len() implies (#[trigger] righta@[i]).start
            + roff <= usize::MAX && righta@[i].end + roff <= usize::MAX by {
            assert(action_bounded(st1.right_actions[i], st1.rcur));
            assert(st1.right_actions[i] == righta@[i]@);
        }
    }
    let mut commands = shift_commands(left, MARGIN);
    let mut c2 = shift_commands(center, coff);
    let mut c3 = shift_commands(right, roff);
    let ghost cv1 = commands@;
    let ghost cv2 = c2@;
    let ghost cv3 = c3@;
    commands.append(&mut c2);
    proof {
        lemma_cmd_views_concat(cv1, cv2);
    }
    commands.append(&mut c3);
    proof {
        lemma_cmd_views_concat(cv1 + cv2, cv3);
    }
    let mut actions = shift_actions(lefta, MARGIN);
    let mut a2 = shift_actions(centera, coff);
    let mut a3 = shift_actions(righta, roff);
    let ghost av1 = actions@;
    let ghost av2 = a2@;
    let ghost av3 = a3@;
    actions.append(&mut a2);
    proof {
        lemma_action_views_concat(av1, av2);
    }
    actions.append(&mut a3);
    proof {
        lemma_action_views_concat(av1 + av2, av3);
    }
    (commands, actions)
}

/// Lay out a parsed line, checking first that the measured widths
/// match the text parts and that every position fits the machine and
/// the surface; yields nothing exactly when one of those fails.
pub fn try_layout(
    parts: Vec<StyledStringPart>,
    widths: &Vec<usize>,
    default_fg: Color,
    default_bg: Color,
    surface_width: usize,
) -> (r: Option<(Vec<Command>, Vec<Action>)>)
    ensures
        (match r {
            Some(lv) => {
                &&& widths@.len() == count_texts(part_views(parts@))
                &&& layout_fits(
                    part_views(parts@), widths@, default_fg, default_bg,
                    surface_width as int)
                &&& command_views(lv.0@) == spec_layout(
                    part_views(parts@), widths@, default_fg, default_bg,
                    surface_width as int).commands
                &&& action_views(lv.1@) == spec_layout(
                    part_views(parts@), widths@, default_fg, default_bg,
                    surface_width as int).actions
            },
            None => widths@.len() != count_texts(part_views(parts@)) || !layout_fits(
                part_views(parts@), widths@, default_fg, default_bg, surface_width as int),
        }),
{
    let ghost pviews = part_views(parts@);
    let ghost n = pviews.len();
    let ghost wseq = widths@;
    let mut align = Align::Left;
    let mut has_pending = false;
    let mut lcur: usize = 0;
    let mut ccur: usize = 0;
    let mut rcur: usize = 0;
    let mut ti: usize = 0;
    let mut i: usize = 0;
    proof {
        assert forall|j: int| 0 <= j < parts@.len() implies (#[trigger] parts@[j])@
            == pviews[j] by {
            assert(part_views(parts@)[j] == parts@[j]@);
        }
    }
    while i < parts.len()
        invariant
            n == pviews.len(),
            pviews == part_views(parts@),
            i <= parts@.len() == n,
            forall|j: int| 0 <= j < parts@.len() ==> (#[trigger] parts@[j])@ == pviews[j],
            wseq == widths@,
            ({
                let st = layout_fold(pviews, wseq, default_fg, default_bg, i as int);
                &&& st.align == align
                &&& (st.pending is Some) == has_pending
                &&& st.lcur == lcur as int
                &&& st.ccur == ccur as int
                &&& st.rcur == rcur as int
                &&& st.texts == ti as int
            }),
        decreases parts@.len() - i,
    {
        let ghost st = layout_fold(pviews, wseq, default_fg, default_bg, i as int);
        let ghost st2 = layout_fold(pviews, wseq, default_fg, default_bg, i as int + 1);
        proof {
            assert(st2 == layout_step(st, pviews[i as int], wseq, default_fg, default_bg));
            lemma_fold_wf(pviews, wseq, default_fg, default_bg, i as int);
            lemma_step_wf(st, pviews[i as int], wseq, default_fg, default_bg);
        }
        let p = &parts[i];
        match p {
            StyledStringPart::Text(_) => {
                proof {
                    lemma_fold_texts(pviews, wseq, default_fg, default_bg, i as int);
                    lemma_fold_texts(pviews, wseq, default_fg, default_bg, i as int + 1);
                    lemma_count_take_le(pviews, i as int + 1);
                }
                if ti >= widths.len() {
                    // More text parts than measured widths.
                    proof {
                        assert(pviews.take(i as int + 1).drop_last() =~= pviews.take(i as int));
                        assert(pviews.take(i as int + 1).last() == pviews[i as int]);
                        assert(count_texts(pviews.take(i as int + 1)) == ti + 1);
                        assert(count_texts(pviews) >= ti + 1);
                    }
                    return None;
                }
                let w = widths[ti];
                let cur = match align {
                    Align::Left => lcur,
                    Align::Center => ccur,
                    Align::Right => rcur,
                };
                match cur.checked_add(w) {
                    Some(nc) => {
                        match align {
                            Align::Left => lcur = nc,
                            Align::Center => ccur = nc,
                            Align::Right => rcur = nc,
                        }
                    },
                    None => {
                        proof {
                            lemma_fold_mono(
                                pviews, wseq, default_fg, default_bg, i as int + 1, n as int);
                            let fin = layout_fold(pviews, wseq, default_fg, default_bg, n as int);
                            assert(cur_of(st2, align) == cur + w);
                            assert(cur + w > usize::MAX);
                            match align {
                                Align::Left => assert(fin.lcur >= st2.lcur),
                                Align::Center => assert(fin.ccur >= st2.ccur),
                                Align::Right => assert(fin.rcur >= st2.rcur),
                            }
                            assert(!layout_fits(
                                pviews, wseq, default_fg, default_bg, surface_width as int));
                        }
                        return None;
                    },
                }
                ti = ti + 1;
            },
            StyledStringPart::Style(_) => {},
            StyledStringPart::Action(_) => {
                has_pending = true;
            },
            StyledStringPart::ActionEnd => {
                has_pending = false;
            },
            StyledStringPart::Swap => {},
            StyledStringPart::Align(a2) => {
                if !has_pending {
                    align = *a2;
                }
            },
            StyledStringPart::Offset(o) => {
                let cur = match align {
                    Align::Left => lcur,
                    Align::Center => ccur,
                    Align::Right => rcur,
                };
                match cur.checked_add(*o) {
                    Some(nc) => {
                        match align {
                            Align::Left => lcur = nc,
                            Align::Center => ccur = nc,
                            Align::Right => rcur = nc,
                        }
                    },
                    None => {
                        proof {
                            lemma_fold_mono(
                                pviews, wseq, default_fg, default_bg, i as int + 1, n as int);
                            let fin = layout_fold(pviews, wseq, default_fg, default_bg, n as int);
                            assert(cur_of(st2, align) == cur + *o);
                            assert(cur + *o > usize::MAX);
                            match align {
                                Align::Left => assert(fin.lcur >= st2.lcur),
                                Align::Center => assert(fin.ccur >= st2.ccur),
                                Align::Right => assert(fin.rcur >= st2.rcur),
                            }
                            assert(!layout_fits(
                                pviews, wseq, default_fg, default_bg, surface_width as int));
                        }
                        return None;
                    },
                }
            },
            StyledStringPart::Attribute { attribute: _, action: _ } => {},
        }
        i = i + 1;
    }
    proof {
        lemma_fold_texts(pviews, wseq, default_fg, default_bg, n as int);
        assert(pviews.take(n as int) =~= pviews);
    }
    if ti != widths.len() {
        // Fewer text parts than measured widths.
        return None;
    }
    if lcur > usize::MAX - MARGIN {
        return None;
    }
    if ccur > surface_width {
        return None;
    }
    if surface_width < MARGIN {
        return None;
    }
    if rcur > surface_width - MARGIN {
        return None;
    }
    Some(layout(parts, widths, default_fg, default_bg, surface_width))
}

/// Whether region `a` catches a click at `x` with button `button`:
/// the coordinate lies in `[start, end)` and the button is bound.
pub open spec fn action_matches(a: ActionView, x: int, button: u8) -> bool {
    a.start <= x < a.end && a.button == button
}

/// The region a click resolves to, as an index into the emitted
/// regions: the last one that catches it.
pub open spec fn spec_resolve_click(actions: Seq<ActionView>, x: int, button: u8) -> Option<int>
    decreases actions.len(),
{
    if actions.len() == 0 {
        None
    } else if action_matches(actions.last(), x, button) {
        Some(actions.len() - 1)
    } else {
        spec_resolve_click(actions.drop_last(), x, button)
    }
}

/// Resolution picks the last matching region, and only fails when no
/// region matches.
pub proof fn lemma_resolve_click_last(actions: Seq<ActionView>, x: int, button: u8)
    ensures
        (match spec_resolve_click(actions, x, button) {
            Some(k) => 0 <= k < actions.len() && action_matches(actions[k], x, button)
                && forall|m: int| k < m < actions.len() ==> !action_matches(
                #[trigger] actions[m], x, button),
            None => forall|m: int| 0 <= m < actions.len() ==> !action_matches(
                #[trigger] actions[m], x, button),
        }),
    decreases actions.len(),
{
    if actions.len() > 0 && !action_matches(actions.last(), x, button) {
        lemma_resolve_click_last(actions.drop_last(), x, button);
        assert(forall|m: int| 0 <= m < actions.len() - 1 ==> actions.drop_last()[m]
            == actions[m]);
    }
}

/// Overlap resolution: when two regions with the same button both
/// contain the coordinate, the click resolves to a region emitted no
/// earlier than the later of the two.
pub proof fn lemma_overlap_last_wins(
    actions: Seq<ActionView>,
    x: int,
    button: u8,
    i: int,
    j: int,
)
    requires
        0 <= i < j < actions.len(),
        action_matches(actions[i], x, button),
        action_matches(actions[j], x, button),
    ensures
        (match spec_resolve_click(actions, x, button) {
            Some(k) => j <= k < actions.len() && action_matches(actions[k], x, button),
            None => false,
        }),
{
    lemma_resolve_click_last(actions, x, button);
}

/// The region a click at `x` with `button` falls in: the last
/// matching one, as an index into `actions`.
pub fn resolve_click(actions: &Vec<Action>, x: usize, button: u8) -> (r: Option<usize>)
    ensures
        (match r {
            Some(k) => k < actions@.len() && spec_resolve_click(
                action_views(actions@), x as int, button) == Some(k as int),
            None => spec_resolve_click(action_views(actions@), x as int, button)
                is None,
        }),
{
    let ghost av = action_views(actions@);
    let mut matched: Option<usize> = None;
    let mut idx: usize = 0;
    while idx < actions.len()
        invariant
            idx <= actions@.len(),
            av == action_views(actions@),
            av.len() == actions@.len(),
            (match matched {
                Some(k) => k < idx && spec_resolve_click(av.take(idx as int), x as int, button)
                    == Some(k as int),
                None => spec_resolve_click(av.take(idx as int), x as int, button) is None,
            }),
        decreases actions@.len() - idx,
    {
        let a = &actions[idx];
        proof {
            assert(av[idx as int] == actions@[idx as int]@);
            assert(av.take(idx as int + 1).drop_last() =~= av.take(idx as int));
            assert(av.take(idx as int + 1).last() == av[idx as int]);
        }
        if a.start <= x && x < a.end && a.button == button {
            matched = Some(idx);
        }
        idx = idx + 1;
    }
    proof {
        assert(av.take(actions@.len() as int) =~= av);
    }
    matched
}

/// The synthetic button code a vertical scroll step maps to: 5 for a
/// downward step, 4 for an upward one, 0 (bound to nothing) otherwise.
pub fn scroll_button(discrete: i32) -> (r: u8)
    ensures
        r == (if discrete > 0 {
            5u8
        } else if discrete < 0 {
            4u8
        } else {
            0u8
        }),
{
    if discrete > 0 {
        5
    } else if discrete < 0 {
        4
    } else {
        0
    }
}

/// Whether a region stands open after the first `k` parts: an open
/// sets it, a close clears it.
pub open spec fn scan_open(parts: Seq<PartView>, k: int) -> bool
    decreases k,
{
    if k <= 0 {
        false
    } else {
        match parts[k - 1] {
            PartView::Action { button: _, cmd: _ } => true,
            PartView::ActionEnd => false,
            _ => scan_open(parts, k - 1),
        }
    }
}

/// Whether opens and closes alternate properly: every open comes
/// while none is pending and every close while one is.
pub open spec fn actions_balanced(parts: Seq<PartView>) -> bool {
    forall|k: int| 0 <= k < parts.len() ==> {
        &&& ((#[trigger] parts[k]) is Action ==> !scan_open(parts, k))
        &&& (parts[k] is ActionEnd ==> scan_open(parts, k))
    }
}

/// How many close directives a sequence holds.
pub open spec fn count_closes(parts: Seq<PartView>) -> nat
    decreases parts.len(),
{
    if parts.len() == 0 {
        0
    } else {
        count_closes(parts.drop_last()) + (if parts.last() is ActionEnd {
            1nat
        } else {
            0nat
        })
    }
}

/// Under proper alternation, after `k` steps the walk has one pending
/// region exactly when the scan says so, and has emitted one region
/// per close seen.
proof fn lemma_fold_action_count(
    parts: Seq<PartView>,
    widths: Seq<usize>,
    default_fg: Color,
    default_bg: Color,
    k: int,
)
    requires
        actions_balanced(parts),
        0 <= k <= parts.len(),
    ensures
        ({
            let st = layout_fold(parts, widths, default_fg, default_bg, k);
            &&& (st.pending is Some) == scan_open(parts, k)
            &&& st.left_actions.len() + st.center_actions.len() + st.right_actions.len()
                == count_closes(parts.take(k))
        }),
    decreases k,
{
    if k > 0 {
        lemma_fold_action_count(parts, widths, default_fg, default_bg, k - 1);
        assert(parts.take(k).drop_last() =~= parts.take(k - 1));
        assert(parts.take(k).last() == parts[k - 1]);
    }
}

/// For a sequence whose opens and closes alternate properly, the
/// layout emits exactly one region per close, plus one auto-closed
/// trailing region when one is still open at the end.
pub proof fn lemma_balanced_action_count(
    parts: Seq<PartView>,
    widths: Seq<usize>,
    default_fg: Color,
    default_bg: Color,
    surface_width: int,
)
    requires
        actions_balanced(parts),
    ensures
        spec_layout(parts, widths, default_fg, default_bg, surface_width).actions.len()
            == count_closes(parts) + (if scan_open(parts, parts.len() as int) {
            1nat
        } else {
            0nat
        }),
{
    let n = parts.len() as int;
    lemma_fold_action_count(parts, widths, default_fg, default_bg, n);
    let st = layout_fold(parts, widths, default_fg, default_bg, n);
    let st1 = close_trailing(st);
    assert(parts.take(n) =~= parts);
    assert(st1.left_actions.len() + st1.center_actions.len() + st1.right_actions.len()
        == count_closes(parts) + (if scan_open(parts, n) {
        1int
    } else {
        0int
    }));
}

/// The right edge of a draw command.
pub open spec fn cmd_end(c: CommandView) -> int {
    match c {
        CommandView::Text(t) => t.end,
        CommandView::Underline(l) => l.end,
        CommandView::Overline(l) => l.end,
    }
}

/// The starting coordinate of a draw command.
pub open spec fn cmd_text_start(c: CommandView) -> int {
    match c {
        CommandView::Text(t) => t.start,
        CommandView::Underline(l) => l.start,
        CommandView::Overline(l) => l.start,
    }
}

/// For part sequences without cursor offsets: the left lane's first
/// text command sits at the lane origin, and the right lane's last
/// command ends at the lane's total width.
proof fn lemma_fold_margin_props(
    parts: Seq<PartView>,
    widths: Seq<usize>,
    default_fg: Color,
    default_bg: Color,
    k: int,
)
    requires
        0 <= k <= parts.len(),
        forall|m: int| 0 <= m < parts.len() ==> !((#[trigger] parts[m]) is Offset),
    ensures
        ({
            let st = layout_fold(parts, widths, default_fg, default_bg, k);
            &&& ((forall|j: int| 0 <= j < st.left.len() ==> !((#[trigger] st.left[j]) is Text))
                ==> st.lcur == 0)
            &&& (forall|i: int| (0 <= i < st.left.len() && st.left[i] is Text && (
                forall|j: int| 0 <= j < i ==> !((#[trigger] st.left[j]) is Text)))
                ==> cmd_text_start(#[trigger] st.left[i]) == 0)
            &&& (st.right.len() > 0 ==> cmd_end(st.right.last()) == st.rcur)
        }),
    decreases k,
{
    if k > 0 {
        lemma_fold_margin_props(parts, widths, default_fg, default_bg, k - 1);
        let st = layout_fold(parts, widths, default_fg, default_bg, k - 1);
        let st2 = layout_fold(parts, widths, default_fg, default_bg, k);
        assert(st2 == layout_step(st, parts[k - 1], widths, default_fg, default_bg));
        match parts[k - 1] {
            PartView::Text(_) => {
                match st.align {
                    Align::Left => {
                        assert(st2.left == st.left.push(st2.left.last()));
                        assert forall|i: int| (0 <= i < st2.left.len() && st2.left[i] is Text
                            && (forall|j: int| 0 <= j < i ==> !((#[trigger] st2.left[j]) is Text)))
                            implies cmd_text_start(#[trigger] st2.left[i]) == 0 by {
                            if i < st.left.len() {
                                assert(forall|j: int| 0 <= j < i ==> st2.left[j] == st.left[j]);
                            } else {
                                assert(forall|j: int| 0 <= j < st.left.len()
                                    ==> st2.left[j] == st.left[j]);
                                assert(st.lcur == 0);
                            }
                        }
                    },
                    Align::Center => {},
                    Align::Right => {},
                }
            },
            PartView::Attribute { attribute: _, action: _ } => {
                assert(st2.lcur == st.lcur);
                if st2.left.len() > st.left.len() {
                    assert(st2.left == st.left.push(st2.left.last()));
                    assert(forall|j: int| 0 <= j < st.left.len()
                        ==> st2.left[j] == #[trigger] st.left[j]);
                    assert(!(st2.left.last() is Text));
                }
                assert forall|i: int| (0 <= i < st2.left.len() && st2.left[i] is Text && (
                    forall|j: int| 0 <= j < i ==> !((#[trigger] st2.left[j]) is Text)))
                    implies cmd_text_start(#[trigger] st2.left[i]) == 0 by {
                    if i < st.left.len() {
                        assert(forall|j: int| 0 <= j < i ==> st2.left[j] == st.left[j]);
                    }
                }
            },
            _ => {},
        }
    }
}

/// Alignment law, for inputs without cursor offsets: the left lane's
/// first text command starts at exactly the margin, and the right
/// lane's last command ends at exactly the surface width minus the
/// margin.
pub proof fn lemma_margin_alignment(
    parts: Seq<PartView>,
    widths: Seq<usize>,
    default_fg: Color,
    default_bg: Color,
    surface_width: int,
)
    requires
        forall|m: int| 0 <= m < parts.len() ==> !((#[trigger] parts[m]) is Offset),
    ensures
        ({
            let st1 = close_trailing(
                layout_fold(parts, widths, default_fg, default_bg, parts.len() as int));
            let lv = spec_layout(parts, widths, default_fg, default_bg, surface_width);
            &&& (forall|i: int| (0 <= i < st1.left.len() && st1.left[i] is Text && (
                forall|j: int| 0 <= j < i ==> !((#[trigger] st1.left[j]) is Text)))
                ==> cmd_text_start(#[trigger] lv.commands[i]) == MARGIN)
            &&& (st1.right.len() > 0 ==> cmd_end(lv.commands.last())
                == surface_width - MARGIN)
        }),
{
    let n = parts.len() as int;
    lemma_fold_margin_props(parts, widths, default_fg, default_bg, n);
    let st = layout_fold(parts, widths, default_fg, default_bg, n);
    let st1 = close_trailing(st);
    let lv = spec_layout(parts, widths, default_fg, default_bg, surface_width);
    let loff = MARGIN as int;
    let roff = surface_width - MARGIN - st1.rcur;
    assert(st1.left == st.left && st1.right == st.right);
    assert(st1.rcur == st.rcur);
    assert forall|i: int| (0 <= i < st1.left.len() && st1.left[i] is Text && (
        forall|j: int| 0 <= j < i ==> !((#[trigger] st1.left[j]) is Text)))
        implies cmd_text_start(#[trigger] lv.commands[i]) == MARGIN by {
        assert(lv.commands[i] == st1.left.map_values(
            |c: CommandView| cmd_shift(c, loff))[i]);
        assert(lv.commands[i] == cmd_shift(st1.left[i], loff));
        assert(cmd_text_start(st1.left[i]) == 0);
    }
    if st1.right.len() > 0 {
        let rseg = st1.right.map_values(|c: CommandView| cmd_shift(c, roff));
        assert(lv.commands.len() == st1.left.len() + st1.center.len() + st1.right.len());
        assert(lv.commands.last() == rseg.last());
        assert(rseg.last() == cmd_shift(st1.right.last(), roff));
        assert(cmd_end(st1.right.last()) == st1.rcur);
    }
}

/// Attribute idempotence: turning underline on, drawing text, turning
/// it on again (while already open), then off, yields exactly one
/// underline segment, spanning from the first toggle to the off.
pub proof fn lemma_underline_on_idempotent(
    text: Seq<char>,
    w: usize,
    default_fg: Color,
    default_bg: Color,
    surface_width: int,
)
    ensures
        ({
            let parts = seq![
                PartView::Attribute {
                    attribute: Attribute::Underline,
                    action: AttributeAction::On,
                },
                PartView::Text(text),
                PartView::Attribute {
                    attribute: Attribute::Underline,
                    action: AttributeAction::On,
                },
                PartView::Attribute {
                    attribute: Attribute::Underline,
                    action: AttributeAction::Off,
                },
            ];
            let lv = spec_layout(parts, seq![w], default_fg, default_bg, surface_width);
            &&& lv.commands.len() == 2
            &&& lv.commands[1] == CommandView::Underline(LineCommandView {
                color: default_fg,
                start: MARGIN as int,
                end: w + MARGIN,
            })
            &&& forall|i: int| 0 <= i < lv.commands.len() && i != 1 ==> !((
            #[trigger] lv.commands[i]) is Underline)
        }),
{
    let parts = seq![
        PartView::Attribute { attribute: Attribute::Underline, action: AttributeAction::On },
        PartView::Text(text),
        PartView::Attribute { attribute: Attribute::Underline, action: AttributeAction::On },
        PartView::Attribute { attribute: Attribute::Underline, action: AttributeAction::Off },
    ];
    let widths = seq![w];
    reveal_with_fuel(layout_fold, 6);
    let st0 = init_state(default_fg, default_bg);
    let st1 = layout_fold(parts, widths, default_fg, default_bg, 1);
    let st2 = layout_fold(parts, widths, default_fg, default_bg, 2);
    let st3 = layout_fold(parts, widths, default_fg, default_bg, 3);
    let st4 = layout_fold(parts, widths, default_fg, default_bg, 4);
    assert(st1 == layout_step(st0, parts[0], widths, default_fg, default_bg));
    assert(st2 == layout_step(st1, parts[1], widths, default_fg, default_bg));
    assert(st3 == layout_step(st2, parts[2], widths, default_fg, default_bg));
    assert(st4 == layout_step(st3, parts[3], widths, default_fg, default_bg));
    assert(st1.pending_underline == Some((Align::Left, 0int)));
    assert(st2.lcur == w as int);
    assert(st2.pending_underline == Some((Align::Left, 0int)));
    assert(st3.pending_underline == Some((Align::Left, 0int)));
    assert(st4.left =~= seq![
        CommandView::Text(TextCommandView {
            string: text,
            fg: default_fg,
            bg: default_bg,
            start: 0,
            end: w as int,
        }),
        CommandView::Underline(LineCommandView {
            color: default_fg,
            start: 0,
            end: w as int,
        }),
    ]);
    let stf = close_trailing(st4);
    assert(stf == st4);
    let lv = spec_layout(parts, widths, default_fg, default_bg, surface_width);
    let loff = MARGIN as int;
    assert(lv.commands =~= st4.left.map_values(|c: CommandView| cmd_shift(c, loff)));
    assert(lv.commands[1] == cmd_shift(st4.left[1], loff));
    assert(lv.commands[0] == cmd_shift(st4.left[0], loff));
}

} // verus!
