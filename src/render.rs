use vstd::prelude::*;

use crate::TAB_STOP;

verus! {

/// Columns that a tab occupies when it starts at render column `col`:
/// it reaches the next multiple of `tab`.
pub open spec fn tab_width(col: nat, tab: nat) -> nat
    recommends
        tab > 0,
{
    (tab - col % tab) as nat
}

/// The render form of `raw`: each tab becomes spaces up to the next tab stop,
/// every other character is copied.
pub open spec fn expand_tabs(raw: Seq<char>, tab: nat) -> Seq<char>
    decreases raw.len(),
{
    if raw.len() == 0 {
        Seq::empty()
    } else {
        let prefix = expand_tabs(raw.drop_last(), tab);
        if raw.last() == '\t' {
            prefix + Seq::new(tab_width(prefix.len(), tab), |_k: int| ' ')
        } else {
            prefix.push(raw.last())
        }
    }
}

/// Render column reached after the first `n` characters of `raw`, counted one by one.
pub open spec fn render_column(raw: Seq<char>, n: nat, tab: nat) -> nat
    decreases n,
{
    if n == 0 {
        0
    } else {
        let col = render_column(raw, (n - 1) as nat, tab);
        if raw[n - 1] == '\t' {
            col + tab_width(col, tab)
        } else {
            col + 1
        }
    }
}

/// Text without tab characters.
pub open spec fn has_no_tabs(s: Seq<char>) -> bool {
    forall|k: int| 0 <= k < s.len() ==> s[k] != '\t'
}

/// The render form with the editor's tab stop.
pub open spec fn render_of(raw: Seq<char>) -> Seq<char> {
    expand_tabs(raw, TAB_STOP as nat)
}

/// Counting columns one by one gives the length of the expanded prefix.
pub proof fn lemma_render_column_is_prefix_len(raw: Seq<char>, n: nat, tab: nat)
    requires
        tab > 0,
        n <= raw.len(),
    ensures
        render_column(raw, n, tab) == expand_tabs(raw.take(n as int), tab).len(),
    decreases n,
{
    if n > 0 {
        lemma_render_column_is_prefix_len(raw, (n - 1) as nat, tab);
        assert(raw.take(n as int).drop_last() == raw.take(n - 1));
    }
}

/// Render columns grow with the number of characters counted.
pub proof fn lemma_render_column_monotonic(raw: Seq<char>, a: nat, b: nat, tab: nat)
    requires
        a <= b,
    ensures
        render_column(raw, a, tab) <= render_column(raw, b, tab),
    decreases b,
{
    if a < b {
        lemma_render_column_monotonic(raw, a, (b - 1) as nat, tab);
    }
}

/// Expanding a longer text extends the expansion of its prefix.
pub proof fn lemma_expand_prefix(raw: Seq<char>, n: nat, tab: nat)
    requires
        n <= raw.len(),
    ensures
        expand_tabs(raw.take(n as int), tab).is_prefix_of(expand_tabs(raw, tab)),
    decreases raw.len() - n,
{
    if n < raw.len() {
        lemma_expand_prefix(raw, n + 1, tab);
        let p = raw.take(n as int + 1);
        assert(p.drop_last() == raw.take(n as int));
        let e = expand_tabs(raw.take(n as int), tab);
        let e1 = expand_tabs(p, tab);
        assert(e.is_prefix_of(e1)) by {
            assert forall|k: int| 0 <= k < e.len() implies e1[k] == e[k] by {}
        }
    } else {
        assert(raw.take(n as int) == raw);
    }
}

/// The expansion of the text after appending one character.
pub proof fn lemma_expand_push(raw: Seq<char>, c: char, tab: nat)
    ensures
        expand_tabs(raw.push(c), tab) == if c == '\t' {
            expand_tabs(raw, tab) + Seq::new(
                tab_width(expand_tabs(raw, tab).len(), tab),
                |_k: int| ' ',
            )
        } else {
            expand_tabs(raw, tab).push(c)
        },
{
    assert(raw.push(c).drop_last() == raw);
}

/// For every text and tab stop, the render column that is counted for the
/// `n`-th character is that character's index in the expanded text, where the
/// character itself stands (a tab as its first space).
pub proof fn law_render_column_matches_expansion(raw: Seq<char>, n: nat, tab: nat)
    requires
        tab > 0,
        n < raw.len(),
    ensures
        render_column(raw, n, tab) == expand_tabs(raw.take(n as int), tab).len(),
        render_column(raw, n, tab) < expand_tabs(raw, tab).len(),
        expand_tabs(raw, tab)[render_column(raw, n, tab) as int] == if raw[n as int] == '\t' {
            ' '
        } else {
            raw[n as int]
        },
{
    lemma_render_column_is_prefix_len(raw, n, tab);
    lemma_expand_prefix(raw, n + 1, tab);
    let p = raw.take(n as int);
    assert(raw.take(n as int + 1) == p.push(raw[n as int]));
    lemma_expand_push(p, raw[n as int], tab);
    let e = expand_tabs(p, tab);
    let full = expand_tabs(raw, tab);
    let e1 = expand_tabs(raw.take(n as int + 1), tab);
    if raw[n as int] == '\t' {
        assert(tab_width(e.len(), tab) >= 1) by (nonlinear_arith)
            requires tab > 0, tab_width(e.len(), tab) == tab - e.len() % tab,;
        assert(e1[e.len() as int] == ' ');
    } else {
        assert(e1[e.len() as int] == raw[n as int]);
    }
}

/// Expanding text that holds no tab gives the same text back.
pub proof fn law_expand_without_tabs_is_identity(s: Seq<char>, tab: nat)
    requires
        has_no_tabs(s),
    ensures
        expand_tabs(s, tab) == s,
    decreases s.len(),
{
    if s.len() > 0 {
        law_expand_without_tabs_is_identity(s.drop_last(), tab);
        assert(s.drop_last().push(s.last()) == s);
    }
}

/// The expanded text holds no tab.
pub proof fn lemma_expand_has_no_tabs(raw: Seq<char>, tab: nat)
    ensures
        has_no_tabs(expand_tabs(raw, tab)),
    decreases raw.len(),
{
    if raw.len() > 0 {
        lemma_expand_has_no_tabs(raw.drop_last(), tab);
    }
}

/// Rendering is idempotent: the render form of a render form is itself.
pub proof fn law_expand_idempotent(raw: Seq<char>, tab: nat)
    ensures
        expand_tabs(expand_tabs(raw, tab), tab) == expand_tabs(raw, tab),
{
    lemma_expand_has_no_tabs(raw, tab);
    law_expand_without_tabs_is_identity(expand_tabs(raw, tab), tab);
}

/// The expansion is at most `tab` columns per character.
pub proof fn lemma_expand_len_bound(raw: Seq<char>, tab: nat)
    requires
        tab > 0,
    ensures
        expand_tabs(raw, tab).len() <= tab * raw.len(),
    decreases raw.len(),
{
    if raw.len() > 0 {
        lemma_expand_len_bound(raw.drop_last(), tab);
        let pl = expand_tabs(raw.drop_last(), tab).len();
        assert(tab_width(pl, tab) <= tab) by (nonlinear_arith)
            requires tab > 0, tab_width(pl, tab) == tab - pl % tab,;
        assert(tab * (raw.len() - 1) + tab == tab * raw.len()) by (nonlinear_arith);
    }
}

/// Between a column `s` and its next tab stop, only the stop itself is a
/// multiple of the tab width.
proof fn lemma_tab_stop_reached(s: nat, m: nat)
    requires
        s < m <= s + tab_width(s, TAB_STOP as nat),
    ensures
        tab_width(s, TAB_STOP as nat) <= TAB_STOP,
        m % (TAB_STOP as nat) == 0 <==> m == s + tab_width(s, TAB_STOP as nat),
{
    let r = s % 8;
    let q = s / 8;
    vstd::arithmetic::div_mod::lemma_fundamental_div_mod(s as int, 8);
    let d = m - s;
    assert(m % 8 == 0 <==> r + d == 8) by (nonlinear_arith)
        requires
            m == 8 * q + r + d,
            0 <= r < 8,
            1 <= d <= 8 - r,
    {
        if r + d == 8 {
            assert(m == 8 * (q + 1));
        } else {
            assert(m == 8 * q + (r + d));
        }
    }
}

/// Longest raw line that the editor holds: its render form must fit in memory.
pub const MAX_LINE_LEN: usize = usize::MAX / 8;

/// Expands the tabs of `raw` to spaces up to the next multiple of the tab stop.
pub fn convert_render(raw: &Vec<char>) -> (render: Vec<char>)
    requires
        raw.len() <= MAX_LINE_LEN,
    ensures
        render@ == render_of(raw@),
{
    let mut render: Vec<char> = Vec::new();
    let mut i: usize = 0;
    while i < raw.len()
        invariant
            i <= raw.len() <= MAX_LINE_LEN,
            render@ == render_of(raw@.take(i as int)),
        decreases raw.len() - i,
    {
        let c = raw[i];
        proof {
            lemma_expand_push(raw@.take(i as int), c, TAB_STOP as nat);
            assert(raw@.take(i as int).push(c) == raw@.take(i + 1));
            lemma_expand_len_bound(raw@.take(i as int), TAB_STOP as nat);
        }
        if c == '\t' {
            let ghost start = render@;
            let ghost w = tab_width(start.len(), TAB_STOP as nat);
            proof {
                lemma_tab_stop_reached(start.len(), start.len() + 1);
            }
            render.push(' ');
            while render.len() % TAB_STOP != 0
                invariant
                    start.len() < render.len() <= start.len() + w,
                    w == tab_width(start.len(), TAB_STOP as nat),
                    start.len() <= TAB_STOP * i,
                    i < raw.len() <= MAX_LINE_LEN,
                    render@ == start + Seq::new((render.len() - start.len()) as nat, |_k: int| ' '),
                decreases start.len() + w - render.len(),
            {
                proof {
                    lemma_tab_stop_reached(start.len(), render.len() as nat);
                    lemma_tab_stop_reached(start.len(), (render.len() + 1) as nat);
                }
                render.push(' ');
            }
            proof {
                lemma_tab_stop_reached(start.len(), render.len() as nat);
                assert(render@ == start + Seq::new(w, |_k: int| ' '));
            }
        } else {
            render.push(c);
        }
        i += 1;
    }
    assert(raw@.take(raw.len() as int) == raw@);
    render
}

/// Render column of the first `cx` characters of `raw` (all of it where `cx`
/// is past its end).
pub fn render_column_of(raw: &Vec<char>, cx: usize) -> (rx: usize)
    requires
        raw.len() <= MAX_LINE_LEN,
    ensures
        rx == render_column(raw@, if cx <= raw.len() { cx as nat } else { raw.len() as nat }, TAB_STOP as nat),
        rx <= render_of(raw@).len(),
{
    let n: usize = if cx <= raw.len() { cx } else { raw.len() };
    let mut rx: usize = 0;
    let mut i: usize = 0;
    while i < n
        invariant
            i <= n <= raw.len() <= MAX_LINE_LEN,
            rx == render_column(raw@, i as nat, TAB_STOP as nat),
            rx <= TAB_STOP * i,
        decreases n - i,
    {
        if raw[i] == '\t' {
            rx += (TAB_STOP - 1) - (rx % TAB_STOP);
        }
        rx += 1;
        i += 1;
    }
    proof {
        lemma_render_column_is_prefix_len(raw@, n as nat, TAB_STOP as nat);
        lemma_expand_prefix(raw@, n as nat, TAB_STOP as nat);
    }
    rx
}

} // verus!
