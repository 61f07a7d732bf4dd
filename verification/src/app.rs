//! The picker's list: a header, the branches, and (when there are any) a
//! second header with the worktrees, each shown as one line of text.

use vstd::prelude::*;
use vstd::utf8::encode_utf8;
use crate::text::{append_chars, chars_of, has_substring, str_contains, string_from};
use crate::git::{Worktree, branch_pairs, strings_of, worktree_pairs};

verus! {

broadcast use vstd::string::group_string_axioms;

/// One entry of the picker.
pub enum Item {
    Header,
    Branch { name: String, is_current: bool },
    Worktree { name: String, path: String },
}

/// The view of an [`Item`].
pub enum ItemView {
    Header,
    Branch(Seq<char>, bool),
    Worktree(Seq<char>, Seq<char>),
}

impl View for Item {
    type V = ItemView;

    open spec fn view(&self) -> ItemView {
        match self {
            Item::Header => ItemView::Header,
            Item::Branch { name, is_current } => ItemView::Branch(name@, *is_current),
            Item::Worktree { name, path } => ItemView::Worktree(name@, path@),
        }
    }
}

impl Item {
    /// A copy of the item.
    pub fn duplicate(&self) -> (r: Item)
        ensures
            r@ == self@,
    {
        match self {
            Item::Header => Item::Header,
            Item::Branch { name, is_current } => Item::Branch { name: name.clone(), is_current: *is_current },
            Item::Worktree { name, path } => Item::Worktree { name: name.clone(), path: path.clone() },
        }
    }
}

/// The picker's entries and, index for index, the text shown for each.
pub struct DisplayList {
    pub items: Vec<Item>,
    pub display: Vec<String>,
}

/// The views of a list of items.
pub open spec fn item_views(v: Seq<Item>) -> Seq<ItemView> {
    v.map_values(|i: Item| i@)
}

/// `n` copies of `c`.
pub open spec fn repeat(c: char, n: nat) -> Seq<char> {
    Seq::new(n, |k: int| c)
}

/// The branch section's header: dimmed `── Branches ───…`.
pub open spec fn branch_header() -> Seq<char> {
    "\x1b[2m── Branches "@ + repeat('─', 40) + "\x1b[0m"@
}

/// The worktree section's header: dimmed `── Worktrees ───…`.
pub open spec fn worktree_header() -> Seq<char> {
    "\x1b[2m── Worktrees "@ + repeat('─', 39) + "\x1b[0m"@
}

/// A branch's line: `* ` before the current branch, two spaces before others.
pub open spec fn branch_line(name: Seq<char>, is_current: bool) -> Seq<char> {
    (if is_current {
        "* "@
    } else {
        "  "@
    }) + name
}

/// The length in bytes of the UTF-8 encoding of `s`, as `str::len` gives it.
pub open spec fn byte_len(s: Seq<char>) -> nat {
    (encode_utf8(s).len() as usize) as nat
}

/// The width of the name column: the longest name, counted in UTF-8 bytes.
pub open spec fn name_width(wts: Seq<(Seq<char>, Seq<char>)>) -> nat
    decreases wts.len(),
{
    if wts.len() == 0 {
        0
    } else {
        let w = name_width(wts.drop_last());
        let l = byte_len(wts.last().0);
        if l > w {
            l
        } else {
            w
        }
    }
}

/// A worktree's line: two spaces, the name padded with spaces to `width`
/// characters, two spaces, and the path.
pub open spec fn worktree_line(name: Seq<char>, path: Seq<char>, width: nat) -> Seq<char> {
    let pad: nat = if width > name.len() {
        (width - name.len()) as nat
    } else {
        0
    };
    "  "@ + name + repeat(' ', pad) + "  "@ + path
}

/// The picker's entries for the given branches and worktrees.
pub open spec fn display_items(
    branches: Seq<(Seq<char>, bool)>,
    wts: Seq<(Seq<char>, Seq<char>)>,
) -> Seq<ItemView> {
    seq![ItemView::Header] + branches.map_values(
        |b: (Seq<char>, bool)| ItemView::Branch(b.0, b.1),
    ) + if wts.len() > 0 {
        seq![ItemView::Header] + wts.map_values(
            |w: (Seq<char>, Seq<char>)| ItemView::Worktree(w.0, w.1),
        )
    } else {
        seq![]
    }
}

/// The picker's lines for the given branches and worktrees.
pub open spec fn display_lines(
    branches: Seq<(Seq<char>, bool)>,
    wts: Seq<(Seq<char>, Seq<char>)>,
) -> Seq<Seq<char>> {
    seq![branch_header()] + branches.map_values(|b: (Seq<char>, bool)| branch_line(b.0, b.1))
        + if wts.len() > 0 {
        seq![worktree_header()] + wts.map_values(
            |w: (Seq<char>, Seq<char>)| worktree_line(w.0, w.1, name_width(wts)),
        )
    } else {
        seq![]
    }
}

fn repeat_chars(c: char, n: usize) -> (r: Vec<char>)
    ensures
        r@ == repeat(c, n as nat),
{
    let mut r: Vec<char> = Vec::new();
    for i in 0..n
        invariant
            r@ == repeat(c, i as nat),
    {
        r.push(c);
        assert(r@ =~= repeat(c, (i + 1) as nat));
    }
    r
}

fn header_line(title: &str, rule: usize) -> (r: String)
    ensures
        r@ == title@ + repeat('─', rule as nat) + "\x1b[0m"@,
{
    let mut s = string_from(title);
    append_chars(&mut s, &repeat_chars('─', rule));
    append_chars(&mut s, &chars_of("\x1b[0m"));
    s
}

/// Builds the picker's entries and lines: a `Branches` header, a line per
/// branch (the current one marked with `*`), then, only when there are
/// worktrees, a `Worktrees` header and a line per worktree with the paths
/// aligned in one column.
pub fn build_display_list(branches: Vec<(String, bool)>, worktrees: Vec<Worktree>) -> (r: DisplayList)
    ensures
        item_views(r.items@) == display_items(branch_pairs(branches@), worktree_pairs(worktrees@)),
        strings_of(r.display@) == display_lines(branch_pairs(branches@), worktree_pairs(worktrees@)),
{
    let ghost bp = branch_pairs(branches@);
    let ghost wp = worktree_pairs(worktrees@);
    let mut items: Vec<Item> = Vec::new();
    let mut display: Vec<String> = Vec::new();
    items.push(Item::Header);
    display.push(header_line("\x1b[2m── Branches ", 40));
    let ghost base_items = item_views(items@);
    let ghost base_display = strings_of(display@);
    assert(base_items == seq![ItemView::Header]);
    assert(base_display == seq![branch_header()]);
    for i in 0..branches.len()
        invariant
            bp == branch_pairs(branches@),
            base_items == seq![ItemView::Header],
            base_display == seq![branch_header()],
            item_views(items@) == base_items + bp.take(i as int).map_values(
                |b: (Seq<char>, bool)| ItemView::Branch(b.0, b.1),
            ),
            strings_of(display@) == base_display + bp.take(i as int).map_values(
                |b: (Seq<char>, bool)| branch_line(b.0, b.1),
            ),
    {
        let name = branches[i].0.clone();
        let is_current = branches[i].1;
        let mut d = if is_current {
            string_from("* ")
        } else {
            string_from("  ")
        };
        append_chars(&mut d, &chars_of(name.as_str()));
        let ghost old_items = item_views(items@);
        let ghost old_display = strings_of(display@);
        let ghost dv = d@;
        items.push(Item::Branch { name, is_current });
        display.push(d);
        proof {
            assert(bp[i as int] == (branches@[i as int].0@, branches@[i as int].1));
            assert(bp.take(i + 1) == bp.take(i as int).push(bp[i as int]));
            assert(item_views(items@) =~= old_items.push(ItemView::Branch(bp[i as int].0, bp[i as int].1)));
            assert(strings_of(display@) =~= old_display.push(dv));
            assert(bp.take(i + 1).map_values(|b: (Seq<char>, bool)| ItemView::Branch(b.0, b.1))
                =~= bp.take(i as int).map_values(|b: (Seq<char>, bool)| ItemView::Branch(b.0, b.1)).push(
                ItemView::Branch(bp[i as int].0, bp[i as int].1),
            ));
            assert(bp.take(i + 1).map_values(|b: (Seq<char>, bool)| branch_line(b.0, b.1))
                =~= bp.take(i as int).map_values(|b: (Seq<char>, bool)| branch_line(b.0, b.1)).push(
                branch_line(bp[i as int].0, bp[i as int].1),
            ));
        }
    }
    assert(bp.take(branches.len() as int) == bp);
    if worktrees.len() > 0 {
        let ghost mid_items = item_views(items@);
        let ghost mid_display = strings_of(display@);
        items.push(Item::Header);
        display.push(header_line("\x1b[2m── Worktrees ", 39));
        assert(item_views(items@) =~= mid_items.push(ItemView::Header));
        assert(strings_of(display@) =~= mid_display.push(worktree_header()));
        let mut width: usize = 0;
        for k in 0..worktrees.len()
            invariant
                wp == worktree_pairs(worktrees@),
                width == name_width(wp.take(k as int)),
        {
            let l = worktrees[k].name.as_str().len();
            proof {
                assert(l == byte_len(wp[k as int].0));
                assert(wp.take(k + 1).drop_last() == wp.take(k as int));
                assert(wp.take(k + 1).last() == wp[k as int]);
            }
            if l > width {
                width = l;
            }
        }
        assert(wp.take(worktrees.len() as int) == wp);
        let ghost head_items = item_views(items@);
        let ghost head_display = strings_of(display@);
        for k in 0..worktrees.len()
            invariant
                wp == worktree_pairs(worktrees@),
                width == name_width(wp),
                item_views(items@) == head_items + wp.take(k as int).map_values(
                    |w: (Seq<char>, Seq<char>)| ItemView::Worktree(w.0, w.1),
                ),
                strings_of(display@) == head_display + wp.take(k as int).map_values(
                    |w: (Seq<char>, Seq<char>)| worktree_line(w.0, w.1, name_width(wp)),
                ),
        {
            let name = worktrees[k].name.clone();
            let path = worktrees[k].path.clone();
            let name_chars = chars_of(name.as_str());
            let pad: usize = if width > name_chars.len() {
                width - name_chars.len()
            } else {
                0
            };
            let mut d = string_from("  ");
            append_chars(&mut d, &name_chars);
            append_chars(&mut d, &repeat_chars(' ', pad));
            append_chars(&mut d, &chars_of("  "));
            append_chars(&mut d, &chars_of(path.as_str()));
            let ghost old_items = item_views(items@);
            let ghost old_display = strings_of(display@);
            let ghost dv = d@;
            items.push(Item::Worktree { name, path });
            display.push(d);
            proof {
                assert(wp[k as int] == (worktrees@[k as int].name@, worktrees@[k as int].path@));
                assert(dv == worktree_line(wp[k as int].0, wp[k as int].1, name_width(wp)));
                assert(wp.take(k + 1) == wp.take(k as int).push(wp[k as int]));
                assert(item_views(items@) =~= old_items.push(ItemView::Worktree(wp[k as int].0, wp[k as int].1)));
                assert(strings_of(display@) =~= old_display.push(dv));
                assert(wp.take(k + 1).map_values(|w: (Seq<char>, Seq<char>)| ItemView::Worktree(w.0, w.1))
                    =~= wp.take(k as int).map_values(|w: (Seq<char>, Seq<char>)| ItemView::Worktree(w.0, w.1)).push(
                    ItemView::Worktree(wp[k as int].0, wp[k as int].1),
                ));
                assert(wp.take(k + 1).map_values(|w: (Seq<char>, Seq<char>)| worktree_line(w.0, w.1, name_width(wp)))
                    =~= wp.take(k as int).map_values(|w: (Seq<char>, Seq<char>)| worktree_line(w.0, w.1, name_width(wp))).push(
                    worktree_line(wp[k as int].0, wp[k as int].1, name_width(wp)),
                ));
            }
        }
        assert(wp.take(worktrees.len() as int) == wp);
        assert(item_views(items@) =~= display_items(bp, wp));
        assert(strings_of(display@) =~= display_lines(bp, wp));
    } else {
        assert(item_views(items@) =~= display_items(bp, wp));
        assert(strings_of(display@) =~= display_lines(bp, wp));
    }
    DisplayList { items, display }
}

/// Whether `git worktree remove` refused only because the worktree has changes,
/// so that `--force` would remove it.
pub open spec fn force_would_remove(error: Seq<char>) -> bool {
    has_substring(error, "use --force to delete it"@) || has_substring(
        error,
        "contains modified or untracked files"@,
    )
}

/// Whether a `git worktree remove` error says that `--force` would succeed.
pub fn can_force_remove_worktree(error: &str) -> (r: bool)
    ensures
        r == force_would_remove(error@),
{
    str_contains(error, "use --force to delete it") || str_contains(
        error,
        "contains modified or untracked files",
    )
}

// ---------------------------------------------------------------------------
// Laws of the picker's list
// ---------------------------------------------------------------------------

/// Entries and lines go together: there are as many of each (one header, the
/// branches, and a header and the worktrees when there are some), and line `k`
/// shows entry `k`.
pub proof fn law_items_match_lines(bs: Seq<(Seq<char>, bool)>, wts: Seq<(Seq<char>, Seq<char>)>)
    ensures
        display_items(bs, wts).len() == display_lines(bs, wts).len(),
        display_items(bs, wts).len() == 1 + bs.len() + if wts.len() > 0 {
            1 + wts.len()
        } else {
            0
        },
        forall|k: int|
            0 <= k < display_items(bs, wts).len() ==> match #[trigger] display_items(bs, wts)[k] {
                ItemView::Header => display_lines(bs, wts)[k] == branch_header()
                    || display_lines(bs, wts)[k] == worktree_header(),
                ItemView::Branch(n, c) => display_lines(bs, wts)[k] == branch_line(n, c),
                ItemView::Worktree(n, p) => display_lines(bs, wts)[k] == worktree_line(
                    n,
                    p,
                    name_width(wts),
                ),
            },
{
    let items = display_items(bs, wts);
    let ls = display_lines(bs, wts);
    assert forall|k: int| 0 <= k < items.len() implies match #[trigger] items[k] {
        ItemView::Header => ls[k] == branch_header() || ls[k] == worktree_header(),
        ItemView::Branch(n, c) => ls[k] == branch_line(n, c),
        ItemView::Worktree(n, p) => ls[k] == worktree_line(n, p, name_width(wts)),
    } by {
        if k == 0 {
        } else if k < 1 + bs.len() {
            assert(items[k] == ItemView::Branch(bs[k - 1].0, bs[k - 1].1));
            assert(ls[k] == branch_line(bs[k - 1].0, bs[k - 1].1));
        } else if k == 1 + bs.len() {
        } else {
            let j = k - 2 - bs.len();
            assert(items[k] == ItemView::Worktree(wts[j].0, wts[j].1));
            assert(ls[k] == worktree_line(wts[j].0, wts[j].1, name_width(wts)));
        }
    }
}

/// The list has a `Worktrees` section exactly when there are worktrees.
pub proof fn law_worktree_header_iff_worktrees(
    bs: Seq<(Seq<char>, bool)>,
    wts: Seq<(Seq<char>, Seq<char>)>,
)
    ensures
        display_lines(bs, wts).contains(worktree_header()) <==> wts.len() > 0,
{
    let ls = display_lines(bs, wts);
    reveal_strlit("\x1b[2m── Branches ");
    reveal_strlit("\x1b[2m── Worktrees ");
    reveal_strlit("* ");
    reveal_strlit("  ");
    if wts.len() > 0 {
        assert(ls[1 + bs.len() as int] == worktree_header());
    } else {
        assert forall|k: int| 0 <= k < ls.len() implies ls[k] != worktree_header() by {
            if k == 0 {
                assert(ls[k][7] != worktree_header()[7]);
            } else {
                assert(ls[k] == branch_line(bs[k - 1].0, bs[k - 1].1));
                assert(ls[k][0] != worktree_header()[0]);
            }
        }
    }
}

/// Every character is encoded in at least one byte.
proof fn lemma_encoding_not_shorter(s: Seq<char>)
    ensures
        encode_utf8(s).len() >= s.len(),
    decreases s.len(),
{
    if s.len() > 0 {
        lemma_encoding_not_shorter(s.drop_first());
    }
}

/// The name column is as wide as the longest name.
proof fn lemma_name_width_bounds(wts: Seq<(Seq<char>, Seq<char>)>, k: int)
    requires
        0 <= k < wts.len(),
    ensures
        byte_len(wts[k].0) <= name_width(wts),
    decreases wts.len(),
{
    if k < wts.len() - 1 {
        lemma_name_width_bounds(wts.drop_last(), k);
    }
}

/// Worktree paths line up: with `W` the width of the name column, every
/// worktree's path starts at column `W + 4` of its line (names that are not
/// ASCII take as many columns as they have bytes minus their extra bytes, so
/// this holds whenever each name's byte count fits in a `usize`).
pub proof fn law_worktree_paths_aligned(wts: Seq<(Seq<char>, Seq<char>)>, k: int)
    requires
        0 <= k < wts.len(),
        forall|j: int| 0 <= j < wts.len() ==> encode_utf8(#[trigger] wts[j].0).len() <= usize::MAX,
    ensures
        wts[k].0.len() <= name_width(wts),
        worktree_line(wts[k].0, wts[k].1, name_width(wts)).skip(name_width(wts) + 4 as int) == wts[k].1,
{
    lemma_encoding_not_shorter(wts[k].0);
    lemma_name_width_bounds(wts, k);
    reveal_strlit("  ");
    let w = name_width(wts);
    let line = worktree_line(wts[k].0, wts[k].1, w);
    assert(line.skip(w + 4 as int) =~= wts[k].1);
}

/// What each line reads: the list opens with the dimmed `── Branches ` rule
/// (forty `─`); branch `j` reads `* ` and its name when it is the current
/// branch and two spaces and its name otherwise; when there are worktrees,
/// the dimmed `── Worktrees ` rule (thirty-nine `─`) follows, and worktree
/// `j` reads two spaces, its name, spaces up to the width of the longest
/// name, two spaces and its path.
pub proof fn law_line_texts(bs: Seq<(Seq<char>, bool)>, wts: Seq<(Seq<char>, Seq<char>)>, j: int)
    ensures
        display_lines(bs, wts)[0] == "\x1b[2m── Branches "@ + Seq::new(40, |i: int| '─') + "\x1b[0m"@,
        0 <= j < bs.len() ==> display_lines(bs, wts)[1 + j] == if bs[j].1 {
            seq!['*', ' '] + bs[j].0
        } else {
            seq![' ', ' '] + bs[j].0
        },
        wts.len() > 0 ==> display_lines(bs, wts)[1 + bs.len() as int] == "\x1b[2m── Worktrees "@ + Seq::new(
            39,
            |i: int| '─',
        ) + "\x1b[0m"@,
        0 <= j < wts.len() ==> display_lines(bs, wts)[2 + bs.len() as int + j] == seq![' ', ' '] + wts[j].0
            + Seq::new(
            if name_width(wts) > wts[j].0.len() {
                (name_width(wts) - wts[j].0.len()) as nat
            } else {
                0
            },
            |i: int| ' ',
        ) + seq![' ', ' '] + wts[j].1,
{
    reveal_strlit("* ");
    reveal_strlit("  ");
    let ls = display_lines(bs, wts);
    assert(repeat('─', 40) =~= Seq::new(40, |i: int| '─'));
    assert(repeat('─', 39) =~= Seq::new(39, |i: int| '─'));
    assert("* "@ =~= seq!['*', ' ']);
    assert("  "@ =~= seq![' ', ' ']);
    if 0 <= j < bs.len() {
        assert(ls[1 + j] == branch_line(bs[j].0, bs[j].1));
    }
    if 0 <= j < wts.len() {
        assert(ls[2 + bs.len() + j] == worktree_line(wts[j].0, wts[j].1, name_width(wts)));
    }
}

/// The name column is exactly as wide as the longest name in UTF-8 bytes:
/// no name is longer, one name (if there is any) is that long, and with no
/// worktrees it is empty.
pub proof fn law_name_width_is_longest(wts: Seq<(Seq<char>, Seq<char>)>, k: int)
    ensures
        0 <= k < wts.len() ==> byte_len(wts[k].0) <= name_width(wts),
        wts.len() == 0 ==> name_width(wts) == 0,
        wts.len() > 0 ==> exists|i: int| 0 <= i < wts.len() && byte_len(#[trigger] wts[i].0) == name_width(wts),
    decreases wts.len(),
{
    if 0 <= k < wts.len() {
        lemma_name_width_bounds(wts, k);
    }
    if wts.len() > 0 {
        let rest = wts.drop_last();
        let last = wts.len() - 1;
        assert(wts[last] == wts.last());
        if byte_len(wts.last().0) > name_width(rest) || rest.len() == 0 {
            assert(byte_len(wts[last].0) == name_width(wts));
        } else {
            law_name_width_is_longest(rest, 0);
            let i = choose|i: int| 0 <= i < rest.len() && byte_len(#[trigger] rest[i].0) == name_width(rest);
            assert(wts[i] == rest[i]);
            assert(byte_len(wts[i].0) == name_width(wts));
        }
    }
}

} // verus!
