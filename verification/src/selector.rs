//! The pure parts of choosing an item: reading fzf's option syntax to learn
//! its layout, the lines handed to fzf and the reading of its answer, and the
//! non-interactive selection by index.

use vstd::prelude::*;
use crate::text::{
    lemma_decimal, lemma_trim_end_prefix, law_parse_decimal,
    chars_eq, chars_of, decimal, decimal_chars, has_prefix, is_whitespace, is_ws, lines,
    parse_usize, parse_usize_spec, seqs_of, split_lines, string_of, sub_chars, trim, trim_chars,
    trim_start, trim_start_chars, append_chars,
};
use crate::git::strings_of;

verus! {

broadcast use vstd::string::group_string_axioms;

/// fzf's `--layout` values.
#[derive(Clone, Copy, Debug, PartialEq, Eq, Structural)]
pub enum FzfLayout {
    Default,
    Reverse,
    ReverseList,
}

/// What `branch` needs to know of fzf's configuration: the layout and whether
/// `--tac` (reverse the input order) is in effect.
#[derive(Clone, Copy, Debug, PartialEq, Eq, Structural)]
pub struct FzfConfig {
    pub layout: FzfLayout,
    pub tac: bool,
}

// ---------------------------------------------------------------------------
// Tokenizing fzf options
// ---------------------------------------------------------------------------

/// The tokenizer's state after part of a line: finished tokens, the token
/// being built, the open quote character, and whether a backslash is pending.
pub type ScanState = (Seq<Seq<char>>, Seq<char>, Option<char>, bool);

/// One character of shell-like splitting: a backslash takes the next character
/// literally; `"` and `'` open and close quotes (the other kind is literal
/// inside); whitespace outside quotes ends a non-empty token.
pub open spec fn scan_step(st: ScanState, ch: char) -> ScanState {
    let (tokens, current, quote, escaped) = st;
    if escaped {
        (tokens, current.push(ch), quote, false)
    } else if ch == '\\' {
        (tokens, current, quote, true)
    } else if ch == '"' || ch == '\'' {
        if quote == Some(ch) {
            (tokens, current, None, false)
        } else if quote is None {
            (tokens, current, Some(ch), false)
        } else {
            (tokens, current.push(ch), quote, false)
        }
    } else if is_ws(ch) && quote is None {
        if current.len() > 0 {
            (tokens.push(current), Seq::empty(), quote, false)
        } else {
            (tokens, current, quote, false)
        }
    } else {
        (tokens, current.push(ch), quote, false)
    }
}

/// The state after the first `n` characters of `line`.
pub open spec fn scan_prefix(line: Seq<char>, n: nat) -> ScanState
    decreases n,
{
    if n == 0 || n > line.len() {
        (Seq::empty(), Seq::empty(), None, false)
    } else {
        scan_step(scan_prefix(line, (n - 1) as nat), line[n - 1])
    }
}

/// Whether a line is a comment: its first non-whitespace character is `#`.
pub open spec fn is_comment(line: Seq<char>) -> bool {
    trim_start(line).len() > 0 && trim_start(line)[0] == '#'
}

/// The tokens of one line: none for a comment, else the finished tokens and
/// the last one if it is not empty (an unclosed quote runs to the line's end).
pub open spec fn line_tokens(line: Seq<char>) -> Seq<Seq<char>> {
    if is_comment(line) {
        seq![]
    } else {
        let st = scan_prefix(line, line.len());
        if st.1.len() > 0 {
            st.0.push(st.1)
        } else {
            st.0
        }
    }
}

/// The tokens of a list of lines, line after line.
pub open spec fn tokens_of_lines(ls: Seq<Seq<char>>) -> Seq<Seq<char>>
    decreases ls.len(),
{
    if ls.len() == 0 {
        seq![]
    } else {
        tokens_of_lines(ls.drop_last()) + line_tokens(ls.last())
    }
}

/// The tokens of an fzf options text.
pub open spec fn fzf_tokens(options: Seq<char>) -> Seq<Seq<char>> {
    tokens_of_lines(lines(options))
}

fn line_tokens_exec(line: &Vec<char>) -> (r: Vec<Vec<char>>)
    ensures
        seqs_of(r@) == line_tokens(line@),
{
    let t = trim_start_chars(line);
    if t.len() > 0 && t[0] == '#' {
        return Vec::new();
    }
    let mut tokens: Vec<Vec<char>> = Vec::new();
    let mut current: Vec<char> = Vec::new();
    let mut quote: Option<char> = None;
    let mut escaped = false;
    for i in 0..line.len()
        invariant
            scan_prefix(line@, i as nat) == (seqs_of(tokens@), current@, quote, escaped),
    {
        let ch = line[i];
        let ghost before = (seqs_of(tokens@), current@, quote, escaped);
        assert(scan_prefix(line@, (i + 1) as nat) == scan_step(before, ch));
        if escaped {
            current.push(ch);
            escaped = false;
        } else if ch == '\\' {
            escaped = true;
        } else if ch == '"' || ch == '\'' {
            if quote == Some(ch) {
                quote = None;
            } else if quote.is_none() {
                quote = Some(ch);
            } else {
                current.push(ch);
            }
        } else if is_whitespace(ch) && quote.is_none() {
            if current.len() > 0 {
                let ghost old_tokens = tokens@;
                tokens.push(current);
                current = Vec::new();
                assert(seqs_of(tokens@) =~= seqs_of(old_tokens).push(before.1));
            }
        } else {
            current.push(ch);
        }
        assert(scan_prefix(line@, (i + 1) as nat) == (seqs_of(tokens@), current@, quote, escaped));
    }
    if current.len() > 0 {
        let ghost old_tokens = tokens@;
        tokens.push(current);
        assert(seqs_of(tokens@) =~= seqs_of(old_tokens).push(current@));
    }
    tokens
}

/// The tokens of an fzf options text, as character vectors.
fn fzf_tokens_exec(options: &Vec<char>) -> (r: Vec<Vec<char>>)
    ensures
        seqs_of(r@) == fzf_tokens(options@),
{
    let ls = split_lines(options);
    let ghost lv = seqs_of(ls@);
    let mut tokens: Vec<Vec<char>> = Vec::new();
    for i in 0..ls.len()
        invariant
            lv == seqs_of(ls@),
            seqs_of(tokens@) == tokens_of_lines(lv.take(i as int)),
    {
        proof {
            assert(lv.take(i + 1).drop_last() == lv.take(i as int));
            assert(lv.take(i + 1).last() == ls@[i as int]@);
        }
        let mut lt = line_tokens_exec(&ls[i]);
        let ghost before = seqs_of(tokens@);
        let ghost added = seqs_of(lt@);
        tokens.append(&mut lt);
        assert(seqs_of(tokens@) =~= before + added);
    }
    assert(lv.take(ls.len() as int) == lv);
    tokens
}

/// Splits fzf options into tokens as a shell would: lines whose first
/// non-blank character is `#` are skipped; quotes and backslashes group and
/// escape characters; whitespace separates tokens.
pub fn tokenize_fzf_options(options: &str) -> (r: Vec<String>)
    ensures
        strings_of(r@) == fzf_tokens(options@),
{
    let ts = fzf_tokens_exec(&chars_of(options));
    let mut r: Vec<String> = Vec::new();
    for i in 0..ts.len()
        invariant
            r@.len() == i,
            strings_of(r@) == seqs_of(ts@).take(i as int),
    {
        let ghost old_r = r@;
        let s = string_of(&ts[i]);
        r.push(s);
        assert(strings_of(r@)[i as int] == seqs_of(ts@)[i as int]);
        assert(forall|k: int| 0 <= k < i ==> strings_of(r@)[k] == strings_of(old_r)[k]);
        assert(strings_of(r@) =~= seqs_of(ts@).take(i + 1));
    }
    assert(seqs_of(ts@).take(ts.len() as int) =~= seqs_of(ts@));
    r
}

// ---------------------------------------------------------------------------
// Layout and input order
// ---------------------------------------------------------------------------

/// The layout a `--layout` value names.
pub open spec fn layout_named(value: Seq<char>) -> Option<FzfLayout> {
    if value == "default"@ {
        Some(FzfLayout::Default)
    } else if value == "reverse"@ {
        Some(FzfLayout::Reverse)
    } else if value == "reverse-list"@ {
        Some(FzfLayout::ReverseList)
    } else {
        None
    }
}

fn layout_named_exec(value: &Vec<char>) -> (r: Option<FzfLayout>)
    ensures
        r == layout_named(value@),
{
    if chars_eq(value, &chars_of("default")) {
        Some(FzfLayout::Default)
    } else if chars_eq(value, &chars_of("reverse")) {
        Some(FzfLayout::Reverse)
    } else if chars_eq(value, &chars_of("reverse-list")) {
        Some(FzfLayout::ReverseList)
    } else {
        None
    }
}

/// The layout named by a `--layout` value: `default`, `reverse` or
/// `reverse-list`; `None` for anything else.
pub fn parse_fzf_layout(value: &str) -> (r: Option<FzfLayout>)
    ensures
        r == layout_named(value@),
{
    layout_named_exec(&chars_of(value))
}

/// The configuration after reading `ts[i..]` from `cfg`: `--reverse` sets the
/// reverse layout, `--tac`/`--no-tac` set and clear tac, `--layout V` and
/// `--layout=V` set the layout `V` names; `--layout` followed by no valid value
/// and every other token change nothing.
pub open spec fn apply_tokens(cfg: FzfConfig, ts: Seq<Seq<char>>, i: int) -> FzfConfig
    decreases ts.len() - i,
{
    if i < 0 || i >= ts.len() {
        cfg
    } else {
        let t = ts[i];
        if t == "--reverse"@ {
            apply_tokens(FzfConfig { layout: FzfLayout::Reverse, ..cfg }, ts, i + 1)
        } else if t == "--tac"@ {
            apply_tokens(FzfConfig { tac: true, ..cfg }, ts, i + 1)
        } else if t == "--no-tac"@ {
            apply_tokens(FzfConfig { tac: false, ..cfg }, ts, i + 1)
        } else if t == "--layout"@ {
            if i + 1 < ts.len() && layout_named(ts[i + 1]) is Some {
                apply_tokens(
                    FzfConfig { layout: layout_named(ts[i + 1])->0, ..cfg },
                    ts,
                    i + 2,
                )
            } else {
                apply_tokens(cfg, ts, i + 1)
            }
        } else if has_prefix(t, "--layout="@) && layout_named(t.skip(9)) is Some {
            apply_tokens(FzfConfig { layout: layout_named(t.skip(9))->0, ..cfg }, ts, i + 1)
        } else {
            apply_tokens(cfg, ts, i + 1)
        }
    }
}

/// Updates `config` with the layout and tac options found in `options`.
pub fn apply_fzf_options(config: &mut FzfConfig, options: &str)
    ensures
        *final(config) == apply_tokens(*old(config), fzf_tokens(options@), 0),
{
    let tokens = fzf_tokens_exec(&chars_of(options));
    let ghost ts = seqs_of(tokens@);
    let reverse = chars_of("--reverse");
    let tac = chars_of("--tac");
    let no_tac = chars_of("--no-tac");
    let layout = chars_of("--layout");
    let layout_eq = chars_of("--layout=");
    proof {
        reveal_strlit("--layout=");
    }
    let mut i: usize = 0;
    while i < tokens.len()
        invariant
            ts == seqs_of(tokens@),
            i <= tokens.len(),
            reverse@ == "--reverse"@,
            tac@ == "--tac"@,
            no_tac@ == "--no-tac"@,
            layout@ == "--layout"@,
            layout_eq@ == "--layout="@,
            layout_eq@.len() == 9,
            apply_tokens(*config, ts, i as int) == apply_tokens(*old(config), ts, 0),
        decreases tokens.len() - i,
    {
        let t = &tokens[i];
        assert(t@ == ts[i as int]);
        if chars_eq(t, &reverse) {
            config.layout = FzfLayout::Reverse;
        } else if chars_eq(t, &tac) {
            config.tac = true;
        } else if chars_eq(t, &no_tac) {
            config.tac = false;
        } else if chars_eq(t, &layout) {
            if i + 1 < tokens.len() {
                assert(tokens@[i + 1]@ == ts[i + 1]);
                if let Some(l) = layout_named_exec(&tokens[i + 1]) {
                    config.layout = l;
                    i = i + 1;
                }
            }
        } else if crate::text::starts_with_chars(t, &layout_eq) {
            let value = sub_chars(t, 9, t.len());
            assert(value@ == t@.skip(9));
            if let Some(l) = layout_named_exec(&value) {
                config.layout = l;
            }
        }
        i = i + 1;
    }
}

/// The configuration that the options file and then `FZF_DEFAULT_OPTS` give,
/// starting from fzf's defaults.
pub open spec fn fzf_config_for(opts_file: Option<Seq<char>>, env_opts: Option<Seq<char>>) -> FzfConfig {
    let start = FzfConfig { layout: FzfLayout::Default, tac: false };
    let after_file = match opts_file {
        Some(f) => apply_tokens(start, fzf_tokens(f), 0),
        None => start,
    };
    match env_opts {
        Some(e) => apply_tokens(after_file, fzf_tokens(e), 0),
        None => after_file,
    }
}

/// Whether the input must be handed to fzf in reverse for the first item to
/// show at the top: with the default layout fzf shows the first line at the
/// bottom, and `--tac` flips the order once more.
pub open spec fn reverses_input(cfg: FzfConfig) -> bool {
    (cfg.layout == FzfLayout::Default) != cfg.tac
}

/// Whether fzf's input must be reversed, given the contents of the file that
/// `FZF_DEFAULT_OPTS_FILE` names (when set and readable) and the value of
/// `FZF_DEFAULT_OPTS` (when set); the file is read first.
pub fn should_reverse_input_for_fzf(opts_file: Option<&str>, env_opts: Option<&str>) -> (r: bool)
    ensures
        r == reverses_input(
            fzf_config_for(
                match opts_file {
                    Some(f) => Some(f@),
                    None => None,
                },
                match env_opts {
                    Some(e) => Some(e@),
                    None => None,
                },
            ),
        ),
        ({
            let cfg = fzf_config_for(
                match opts_file {
                    Some(f) => Some(f@),
                    None => None,
                },
                match env_opts {
                    Some(e) => Some(e@),
                    None => None,
                },
            );
            r == match cfg.layout {
                FzfLayout::Default => !cfg.tac,
                FzfLayout::Reverse => cfg.tac,
                FzfLayout::ReverseList => cfg.tac,
            }
        }),
{
    let mut config = FzfConfig { layout: FzfLayout::Default, tac: false };
    if let Some(contents) = opts_file {
        apply_fzf_options(&mut config, contents);
    }
    if let Some(opts) = env_opts {
        apply_fzf_options(&mut config, opts);
    }
    let is_default = match config.layout {
        FzfLayout::Default => true,
        _ => false,
    };
    is_default != config.tac
}

// ---------------------------------------------------------------------------
// Talking to fzf
// ---------------------------------------------------------------------------

/// The line handed to fzf for item `i`: its index, a tab, and the item.
pub open spec fn indexed_line(i: nat, item: Seq<char>) -> Seq<char> {
    decimal(i) + seq!['\t'] + item
}

/// The lines handed to fzf, in the order given: item `k` prefixed by its index
/// and a tab, the whole list reversed when `reverse` holds.
pub open spec fn fzf_lines(items: Seq<Seq<char>>, reverse: bool) -> Seq<Seq<char>> {
    let n = items.len();
    if reverse {
        Seq::new(n, |k: int| indexed_line((n - 1 - k) as nat, items[n - 1 - k]))
    } else {
        Seq::new(n, |k: int| indexed_line(k as nat, items[k]))
    }
}

/// The lines to write to fzf's input for `items` (see [`fzf_lines`]).
pub fn fzf_input_lines(items: &Vec<String>, reverse: bool) -> (r: Vec<String>)
    ensures
        strings_of(r@) == fzf_lines(strings_of(items@), reverse),
{
    let n = items.len();
    let mut r: Vec<String> = Vec::new();
    for j in 0..n
        invariant
            n == items.len(),
            r@.len() == j,
            forall|k: int| 0 <= k < j ==> #[trigger] strings_of(r@)[k] == fzf_lines(strings_of(items@), reverse)[k],
    {
        let idx = if reverse {
            n - 1 - j
        } else {
            j
        };
        let mut line = string_of(&decimal_chars(idx));
        let tab = vec!['\t'];
        assert(tab@ =~= seq!['\t']);
        append_chars(&mut line, &tab);
        let item_chars = chars_of(items[idx].as_str());
        append_chars(&mut line, &item_chars);
        proof {
            assert(strings_of(items@)[idx as int] == items@[idx as int]@);
            assert(line@ == fzf_lines(strings_of(items@), reverse)[j as int]);
        }
        let ghost old_r = r@;
        let ghost line_v = line@;
        r.push(line);
        assert(strings_of(r@)[j as int] == line_v);
        assert forall|k: int| 0 <= k < j + 1 implies #[trigger] strings_of(r@)[k] == fzf_lines(
            strings_of(items@),
            reverse,
        )[k] by {
            if k < j {
                assert(strings_of(r@)[k] == strings_of(old_r)[k]);
            }
        }
    }
    assert(strings_of(r@) =~= fzf_lines(strings_of(items@), reverse));
    r
}

/// The index of the first tab in `s`, or `s.len()` when there is none.
pub open spec fn tab_index(s: Seq<char>) -> nat
    decreases s.len(),
{
    if s.len() == 0 {
        0
    } else if s[0] == '\t' {
        0
    } else {
        1 + tab_index(s.drop_first())
    }
}

proof fn lemma_tab_index(s: Seq<char>, k: int)
    requires
        0 <= k <= s.len(),
        forall|j: int| 0 <= j < k ==> #[trigger] s[j] != '\t',
        k == s.len() || s[k] == '\t',
    ensures
        tab_index(s) == k,
    decreases k,
{
    if k > 0 {
        lemma_tab_index(s.drop_first(), k - 1);
    }
}

/// What fzf's answer means: no choice when fzf did not succeed (the user
/// aborted), else the index before the first tab of the trimmed output line,
/// or an error naming that line when it holds no index.
pub open spec fn fzf_choice(success: bool, stdout: Seq<char>) -> Result<Option<usize>, Seq<char>> {
    if !success {
        Ok(None)
    } else {
        let line = trim(stdout);
        match parse_usize_spec(line.take(tab_index(line) as int)) {
            Some(i) => Ok(Some(i)),
            None => Err("Failed to parse fzf output index from: "@ + line),
        }
    }
}

/// Reads fzf's answer (see [`fzf_choice`]).
pub fn fzf_selection(success: bool, stdout: &str) -> (r: Result<Option<usize>, String>)
    ensures
        match (r, fzf_choice(success, stdout@)) {
            (Ok(a), Ok(b)) => a == b,
            (Err(a), Err(b)) => a@ == b,
            _ => false,
        },
{
    if !success {
        return Ok(None);
    }
    let line = trim_chars(&chars_of(stdout));
    let mut k: usize = 0;
    while k < line.len() && line[k] != '\t'
        invariant
            k <= line.len(),
            forall|j: int| 0 <= j < k ==> #[trigger] line@[j] != '\t',
        decreases line.len() - k,
    {
        k = k + 1;
    }
    proof {
        lemma_tab_index(line@, k as int);
    }
    let first = sub_chars(&line, 0, k);
    assert(first@ == line@.take(k as int));
    match parse_usize(&first) {
        Some(i) => Ok(Some(i)),
        None => {
            let mut msg = string_of(&chars_of("Failed to parse fzf output index from: "));
            append_chars(&mut msg, &line);
            Err(msg)
        },
    }
}

/// The item that `BRANCH_SELECT_FIRST=value` picks among `count` items: the
/// value is a 1-based position (anything that is not a number counts as 0),
/// and a position outside `1..=count` picks nothing.
pub open spec fn env_choice(value: Seq<char>, count: nat) -> Option<usize> {
    let n: int = match parse_usize_spec(value) {
        Some(n) => n as int,
        None => 0,
    };
    if 0 < n <= count {
        Some((n - 1) as usize)
    } else {
        None
    }
}

/// The 0-based index that `BRANCH_SELECT_FIRST=value` selects among `count`
/// items (see [`env_choice`]).
pub fn env_selection(value: &str, count: usize) -> (r: Option<usize>)
    ensures
        r == env_choice(value@, count as nat),
{
    let n = match parse_usize(&chars_of(value)) {
        Some(n) => n,
        None => 0,
    };
    if n > 0 && n <= count {
        Some(n - 1)
    } else {
        None
    }
}

// ---------------------------------------------------------------------------
// Laws
// ---------------------------------------------------------------------------

/// The index written before the tab of a line handed to fzf is the index read
/// back from fzf's answer when that line is picked, whatever the item says.
pub proof fn law_fzf_index_round_trip(i: usize, item: Seq<char>)
    ensures
        fzf_choice(true, indexed_line(i as nat, item) + "\n"@) == Ok::<Option<usize>, Seq<char>>(
            Some(i),
        ),
{
    reveal_strlit("\n");
    let d = decimal(i as nat);
    let s = indexed_line(i as nat, item) + "\n"@;
    lemma_decimal(i as nat);
    law_parse_decimal(i);
    assert(s[0] == d[0]);
    assert(trim_start(s) == s);
    lemma_trim_end_prefix(s);
    let t = trim(s);
    assert(s[d.len() - 1] == d[d.len() - 1]);
    assert(t.len() >= d.len());
    assert forall|j: int| 0 <= j < d.len() implies #[trigger] t[j] != '\t' by {
        assert(t[j] == s[j]);
        assert(s[j] == d[j]);
    }
    if t.len() > d.len() {
        assert(t[d.len() as int] == s[d.len() as int]);
        lemma_tab_index(t, d.len() as int);
    } else {
        lemma_tab_index(t, d.len() as int);
    }
    assert(t.take(d.len() as int) =~= d);
}

/// The lines handed to fzf in reverse order are the forward lines reversed.
pub proof fn law_reversed_input_is_reversal(items: Seq<Seq<char>>)
    ensures
        fzf_lines(items, true) == fzf_lines(items, false).reverse(),
{
    assert(fzf_lines(items, true) =~= fzf_lines(items, false).reverse());
}

/// `BRANCH_SELECT_FIRST=k` picks the `k`-th item (counted from 1), and picks
/// nothing for 0 or for a position past the end.
pub proof fn law_env_selection_is_one_based(k: usize, count: usize)
    ensures
        1 <= k <= count ==> env_choice(decimal(k as nat), count as nat) == Some((k - 1) as usize),
        (k == 0 || k > count) ==> env_choice(decimal(k as nat), count as nat) is None,
{
    law_parse_decimal(k);
}

/// The tokens after the first `n` characters of a line are never empty.
proof fn lemma_scan_tokens_nonempty(line: Seq<char>, n: nat)
    ensures
        forall|k: int|
            0 <= k < scan_prefix(line, n).0.len() ==> #[trigger] scan_prefix(line, n).0[k].len() > 0,
    decreases n,
{
    if n > 0 && n <= line.len() {
        lemma_scan_tokens_nonempty(line, (n - 1) as nat);
        let prev = scan_prefix(line, (n - 1) as nat);
        let st = scan_prefix(line, n);
        assert(st == scan_step(prev, line[n - 1]));
        assert forall|k: int| 0 <= k < st.0.len() implies #[trigger] st.0[k].len() > 0 by {
            if k < prev.0.len() {
                assert(st.0[k] == prev.0[k]);
            }
        }
    }
}

/// The tokens of a list of lines are never empty.
proof fn lemma_tokens_nonempty(ls: Seq<Seq<char>>)
    ensures
        forall|k: int| 0 <= k < tokens_of_lines(ls).len() ==> #[trigger] tokens_of_lines(ls)[k].len() > 0,
    decreases ls.len(),
{
    if ls.len() > 0 {
        lemma_tokens_nonempty(ls.drop_last());
        let line = ls.last();
        lemma_scan_tokens_nonempty(line, line.len());
        let a = tokens_of_lines(ls.drop_last());
        let b = line_tokens(line);
        assert forall|k: int| 0 <= k < b.len() implies #[trigger] b[k].len() > 0 by {
            if !is_comment(line) {
                let st = scan_prefix(line, line.len());
                if k < st.0.len() {
                    assert(b[k] == st.0[k]);
                }
            }
        }
        assert forall|k: int| 0 <= k < (a + b).len() implies #[trigger] (a + b)[k].len() > 0 by {
            if k >= a.len() {
                assert((a + b)[k] == b[k - a.len()]);
            }
        }
    }
}

/// fzf options never yield an empty token.
pub proof fn law_tokens_are_never_empty(options: Seq<char>)
    ensures
        forall|k: int| 0 <= k < fzf_tokens(options).len() ==> #[trigger] fzf_tokens(options)[k].len() > 0,
{
    lemma_tokens_nonempty(lines(options));
}

/// Splitting at whitespace: the finished words and the word being read.
pub open spec fn ws_scan(s: Seq<char>) -> (Seq<Seq<char>>, Seq<char>)
    decreases s.len(),
{
    if s.len() == 0 {
        (seq![], seq![])
    } else {
        let (words, current) = ws_scan(s.drop_last());
        let ch = s.last();
        if is_ws(ch) {
            if current.len() > 0 {
                (words.push(current), seq![])
            } else {
                (words, current)
            }
        } else {
            (words, current.push(ch))
        }
    }
}

/// The maximal runs of non-whitespace characters of `s`, in order, as
/// `str::split_whitespace` yields them.
pub open spec fn ws_words(s: Seq<char>) -> Seq<Seq<char>> {
    let (words, current) = ws_scan(s);
    if current.len() > 0 {
        words.push(current)
    } else {
        words
    }
}

/// Whether `s` holds no quote and no backslash.
pub open spec fn unquoted(s: Seq<char>) -> bool {
    forall|i: int| 0 <= i < s.len() ==> #[trigger] s[i] != '"' && s[i] != '\'' && s[i] != '\\'
}

/// Without quotes and backslashes, the tokenizer's state is that of plain
/// whitespace splitting.
proof fn lemma_scan_is_ws_scan(line: Seq<char>, n: nat)
    requires
        n <= line.len(),
        unquoted(line),
    ensures
        scan_prefix(line, n) == (ws_scan(line.take(n as int)).0, ws_scan(line.take(n as int)).1, None::<char>, false),
    decreases n,
{
    if n == 0 {
        assert(line.take(0) =~= Seq::<char>::empty());
    } else {
        lemma_scan_is_ws_scan(line, (n - 1) as nat);
        assert(line.take(n as int).drop_last() == line.take(n - 1));
        assert(line.take(n as int).last() == line[n - 1]);
        assert(line[n - 1] != '"' && line[n - 1] != '\'' && line[n - 1] != '\\');
    }
}

/// After a prefix that ends between words, the rest is split on its own.
proof fn lemma_ws_scan_append(p: Seq<char>, b: Seq<char>)
    requires
        ws_scan(p).1.len() == 0,
    ensures
        ws_scan(p + b) == (ws_scan(p).0 + ws_scan(b).0, ws_scan(b).1),
    decreases b.len(),
{
    if b.len() == 0 {
        assert(p + b == p);
        assert(ws_scan(p).0 + ws_scan(b).0 =~= ws_scan(p).0);
    } else {
        lemma_ws_scan_append(p, b.drop_last());
        assert((p + b).drop_last() == p + b.drop_last());
        assert((p + b).last() == b.last());
        let (wb, cb) = ws_scan(b.drop_last());
        if is_ws(b.last()) && cb.len() > 0 {
            assert(ws_scan(p).0 + wb.push(cb) =~= (ws_scan(p).0 + wb).push(cb));
        }
    }
}

/// Whitespace between two texts separates their words.
proof fn lemma_ws_words_split(a: Seq<char>, w: char, b: Seq<char>)
    requires
        is_ws(w),
    ensures
        ws_words(a + seq![w] + b) == ws_words(a) + ws_words(b),
{
    let p = a + seq![w];
    assert(p.drop_last() == a);
    assert(p.last() == w);
    assert(ws_scan(p).0 == ws_words(a));
    lemma_ws_scan_append(p, b);
    let (wb, cb) = ws_scan(b);
    if cb.len() > 0 {
        assert(ws_words(a) + wb.push(cb) =~= (ws_words(a) + wb).push(cb));
    }
}

/// The tokens of lines laid end to end are the tokens of each.
proof fn lemma_tokens_of_lines_append(x: Seq<Seq<char>>, y: Seq<Seq<char>>)
    ensures
        tokens_of_lines(x + y) == tokens_of_lines(x) + tokens_of_lines(y),
    decreases y.len(),
{
    if y.len() == 0 {
        assert(x + y == x);
        assert(tokens_of_lines(x) + tokens_of_lines(y) =~= tokens_of_lines(x));
    } else {
        lemma_tokens_of_lines_append(x, y.drop_last());
        assert((x + y).drop_last() == x + y.drop_last());
        assert((x + y).last() == y.last());
        assert(tokens_of_lines(x) + (tokens_of_lines(y.drop_last()) + line_tokens(y.last()))
            =~= (tokens_of_lines(x) + tokens_of_lines(y.drop_last())) + line_tokens(y.last()));
    }
}

/// Options text with no quotes, no backslashes and no comment lines splits
/// into exactly the words that whitespace splitting gives.
pub proof fn law_plain_options_split_on_whitespace(options: Seq<char>)
    requires
        unquoted(options),
        forall|k: int| 0 <= k < lines(options).len() ==> !is_comment(#[trigger] lines(options)[k]),
    ensures
        fzf_tokens(options) == ws_words(options),
    decreases options.len(),
{
    let s = options;
    if s.len() == 0 {
        assert(lines(s) =~= Seq::<Seq<char>>::empty());
        assert(ws_words(s) =~= Seq::<Seq<char>>::empty());
        assert(fzf_tokens(s) =~= Seq::<Seq<char>>::empty());
    } else {
        crate::text::lemma_newline_index_facts(s);
        let k = crate::text::newline_index(s) as int;
        if k >= s.len() {
            assert(lines(s) == seq![s]);
            assert(!is_comment(lines(s)[0]));
            lemma_scan_is_ws_scan(s, s.len());
            assert(s.take(s.len() as int) == s);
            assert(seq![s].drop_last() =~= Seq::<Seq<char>>::empty());
            assert(tokens_of_lines(seq![s].drop_last()) =~= Seq::<Seq<char>>::empty());
            assert(tokens_of_lines(seq![s]) == tokens_of_lines(seq![s].drop_last()) + line_tokens(s));
            assert(tokens_of_lines(seq![s]) =~= line_tokens(s));
        } else {
            let l = s.take(k);
            let rest = s.skip(k + 1);
            let sl = crate::text::strip_cr(l);
            assert(lines(s) == seq![sl] + lines(rest));
            assert forall|j: int| 0 <= j < lines(rest).len() implies !is_comment(
                #[trigger] lines(rest)[j],
            ) by {
                assert(lines(rest)[j] == lines(s)[j + 1]);
            }
            assert forall|i: int| 0 <= i < rest.len() implies #[trigger] rest[i] != '"' && rest[i]
                != '\'' && rest[i] != '\\' by {
                assert(rest[i] == s[i + k + 1]);
            }
            law_plain_options_split_on_whitespace(rest);
            assert(!is_comment(lines(s)[0]));
            assert forall|i: int| 0 <= i < sl.len() implies #[trigger] sl[i] != '"' && sl[i] != '\''
                && sl[i] != '\\' by {
                assert(sl[i] == s[i]);
            }
            lemma_scan_is_ws_scan(sl, sl.len());
            assert(sl.take(sl.len() as int) == sl);
            assert(line_tokens(sl) == ws_words(sl));
            assert(seq![sl].drop_last() =~= Seq::<Seq<char>>::empty());
            assert(tokens_of_lines(seq![sl].drop_last()) =~= Seq::<Seq<char>>::empty());
            assert(tokens_of_lines(seq![sl]) == tokens_of_lines(seq![sl].drop_last()) + line_tokens(sl));
            assert(tokens_of_lines(seq![sl]) =~= line_tokens(sl));
            lemma_tokens_of_lines_append(seq![sl], lines(rest));
            // The words of the text are those of the first line and of the rest.
            assert(s == l + seq!['\n'] + rest);
            lemma_ws_words_split(l, '\n', rest);
            if l.len() > 0 && l.last() == '\r' {
                let l0 = l.drop_last();
                assert(l == l0 + seq!['\r'] + Seq::<char>::empty());
                lemma_ws_words_split(l0, '\r', Seq::<char>::empty());
                assert(ws_words(Seq::<char>::empty()) =~= Seq::<Seq<char>>::empty());
                assert(ws_words(l0) + ws_words(Seq::<char>::empty()) =~= ws_words(l0));
            }
            assert(ws_words(sl) == ws_words(l));
        }
    }
}

/// The order of fzf's input: only the default layout shows the first line at
/// the bottom, so the input is reversed for it; `reverse` and `reverse-list`
/// keep the order; `--tac` flips each of these.
pub proof fn law_input_order(opts_file: Option<Seq<char>>, env_opts: Option<Seq<char>>)
    ensures
        ({
            let cfg = fzf_config_for(opts_file, env_opts);
            reverses_input(cfg) == match cfg.layout {
                FzfLayout::Default => !cfg.tac,
                FzfLayout::Reverse => cfg.tac,
                FzfLayout::ReverseList => cfg.tac,
            }
        }),
{
}

/// With no options file and no `FZF_DEFAULT_OPTS`, fzf runs with the default
/// layout and without `--tac`.
pub proof fn law_no_options_mean_defaults()
    ensures
        fzf_config_for(None, None) == (FzfConfig { layout: FzfLayout::Default, tac: false }),
{
}

/// The layouts by name: `default`, `reverse`, `reverse-list`, and nothing
/// else.
pub proof fn law_layout_names(value: Seq<char>)
    ensures
        layout_named("default"@) == Some(FzfLayout::Default),
        layout_named("reverse"@) == Some(FzfLayout::Reverse),
        layout_named("reverse-list"@) == Some(FzfLayout::ReverseList),
        value != "default"@ && value != "reverse"@ && value != "reverse-list"@ ==> layout_named(
            value,
        ) is None,
{
    reveal_strlit("default");
    reveal_strlit("reverse");
    reveal_strlit("reverse-list");
    assert("reverse"@[0] != "default"@[0]);
    assert("reverse-list"@.len() != "default"@.len());
    assert("reverse-list"@.len() != "reverse"@.len());
}

/// Reading tokens starting at `p.len() + j` of `p + b` is reading `b` from `j`.
proof fn lemma_apply_shift(cfg: FzfConfig, p: Seq<Seq<char>>, b: Seq<Seq<char>>, j: int)
    requires
        0 <= j,
    ensures
        apply_tokens(cfg, p + b, p.len() + j) == apply_tokens(cfg, b, j),
    decreases b.len() - j,
{
    let ts = p + b;
    let i = p.len() + j;
    if j < b.len() {
        assert(ts[i] == b[j]);
        if j + 1 < b.len() {
            assert(ts[i + 1] == b[j + 1]);
        }
        let c1 = FzfConfig { layout: FzfLayout::Reverse, ..cfg };
        let c2 = FzfConfig { tac: true, ..cfg };
        let c3 = FzfConfig { tac: false, ..cfg };
        lemma_apply_shift(c1, p, b, j + 1);
        lemma_apply_shift(c2, p, b, j + 1);
        lemma_apply_shift(c3, p, b, j + 1);
        lemma_apply_shift(cfg, p, b, j + 1);
        if j + 1 < b.len() && layout_named(b[j + 1]) is Some {
            lemma_apply_shift(
                FzfConfig { layout: layout_named(b[j + 1])->0, ..cfg },
                p,
                b,
                j + 2,
            );
        }
        if has_prefix(b[j], "--layout="@) && layout_named(b[j].skip(9)) is Some {
            lemma_apply_shift(
                FzfConfig { layout: layout_named(b[j].skip(9))->0, ..cfg },
                p,
                b,
                j + 1,
            );
        }
    }
}

proof fn lemma_apply_append(cfg: FzfConfig, a: Seq<Seq<char>>, b: Seq<Seq<char>>, i: int)
    requires
        0 <= i <= a.len(),
        a.len() == 0 || a.last() != "--layout"@,
    ensures
        apply_tokens(cfg, a + b, i) == apply_tokens(apply_tokens(cfg, a, i), b, 0),
    decreases a.len() - i,
{
    let ts = a + b;
    if i == a.len() {
        assert(apply_tokens(cfg, a, i) == cfg);
        assert(a + b == a + b);
        lemma_apply_shift(cfg, a, b, 0);
    } else {
        assert(ts[i] == a[i]);
        let t = a[i];
        if i + 1 < a.len() {
            assert(ts[i + 1] == a[i + 1]);
        }
        if t == "--layout"@ {
            assert(i + 1 < a.len());
        }
        lemma_apply_append(FzfConfig { layout: FzfLayout::Reverse, ..cfg }, a, b, i + 1);
        lemma_apply_append(FzfConfig { tac: true, ..cfg }, a, b, i + 1);
        lemma_apply_append(FzfConfig { tac: false, ..cfg }, a, b, i + 1);
        lemma_apply_append(cfg, a, b, i + 1);
        if i + 1 < a.len() && layout_named(a[i + 1]) is Some {
            lemma_apply_append(FzfConfig { layout: layout_named(a[i + 1])->0, ..cfg }, a, b, i + 2);
        }
        if has_prefix(t, "--layout="@) && layout_named(t.skip(9)) is Some {
            lemma_apply_append(FzfConfig { layout: layout_named(t.skip(9))->0, ..cfg }, a, b, i + 1);
        }
    }
}

/// Options take effect in order: reading `a` then `b` is reading `a` and then
/// reading `b` from the configuration `a` gave, as long as `a` does not end
/// with a `--layout` waiting for its value.
pub proof fn law_options_apply_in_order(cfg: FzfConfig, a: Seq<Seq<char>>, b: Seq<Seq<char>>)
    requires
        a.len() == 0 || a.last() != "--layout"@,
    ensures
        apply_tokens(cfg, a + b, 0) == apply_tokens(apply_tokens(cfg, a, 0), b, 0),
{
    lemma_apply_append(cfg, a, b, 0);
}

/// What each option does on its own: `--reverse` and `--layout=reverse`
/// select the reverse layout, `--layout=default`, `--layout=reverse-list`
/// and `--layout <value>` the named one, `--tac` sets and `--no-tac` clears
/// tac; `--layout` followed by no layout name, and any other token, change
/// nothing.
pub proof fn law_single_options(cfg: FzfConfig, t: Seq<char>, v: Seq<char>)
    ensures
        apply_tokens(cfg, seq!["--reverse"@], 0) == (FzfConfig { layout: FzfLayout::Reverse, ..cfg }),
        apply_tokens(cfg, seq!["--tac"@], 0) == (FzfConfig { tac: true, ..cfg }),
        apply_tokens(cfg, seq!["--no-tac"@], 0) == (FzfConfig { tac: false, ..cfg }),
        apply_tokens(cfg, seq!["--layout=default"@], 0) == (FzfConfig { layout: FzfLayout::Default, ..cfg }),
        apply_tokens(cfg, seq!["--layout=reverse"@], 0) == (FzfConfig { layout: FzfLayout::Reverse, ..cfg }),
        apply_tokens(cfg, seq!["--layout=reverse-list"@], 0) == (FzfConfig {
            layout: FzfLayout::ReverseList,
            ..cfg
        }),
        apply_tokens(cfg, seq!["--layout"@, "default"@], 0) == (FzfConfig { layout: FzfLayout::Default, ..cfg }),
        apply_tokens(cfg, seq!["--layout"@, "reverse"@], 0) == (FzfConfig { layout: FzfLayout::Reverse, ..cfg }),
        apply_tokens(cfg, seq!["--layout"@, "reverse-list"@], 0) == (FzfConfig {
            layout: FzfLayout::ReverseList,
            ..cfg
        }),
        apply_tokens(cfg, seq!["--layout"@], 0) == cfg,
        t != "--reverse"@ && t != "--tac"@ && t != "--no-tac"@ && !has_prefix(t, "--layout"@)
            ==> apply_tokens(cfg, seq![t], 0) == cfg,
{
    reveal_with_fuel(apply_tokens, 3);
    reveal_strlit("--reverse");
    reveal_strlit("--tac");
    reveal_strlit("--no-tac");
    reveal_strlit("--layout");
    reveal_strlit("--layout=");
    reveal_strlit("--layout=default");
    reveal_strlit("--layout=reverse");
    reveal_strlit("--layout=reverse-list");
    reveal_strlit("default");
    reveal_strlit("reverse");
    reveal_strlit("reverse-list");
    law_layout_names(v);
    assert("--reverse"@[2] != "--tac"@[2]);
    assert("--reverse"@[2] != "--no-tac"@[2]);
    assert("--tac"@[2] != "--no-tac"@[2]);
    assert("--reverse"@[2] != "--layout"@[2]);
    assert("--tac"@[2] != "--layout"@[2]);
    assert("--no-tac"@[2] != "--layout"@[2]);
    assert("--layout=default"@.len() != "--layout"@.len());
    assert("--layout=reverse"@.len() != "--layout"@.len());
    assert("--layout=reverse-list"@.len() != "--layout"@.len());
    assert("--layout=default"@[2] != "--reverse"@[2]);
    assert("--layout=default"@[2] != "--tac"@[2]);
    assert("--layout=default"@[2] != "--no-tac"@[2]);
    assert("--layout=reverse"@[2] != "--reverse"@[2]);
    assert("--layout=reverse"@[2] != "--tac"@[2]);
    assert("--layout=reverse"@[2] != "--no-tac"@[2]);
    assert("--layout=reverse-list"@[2] != "--reverse"@[2]);
    assert("--layout=reverse-list"@[2] != "--tac"@[2]);
    assert("--layout=reverse-list"@[2] != "--no-tac"@[2]);
    assert("--layout=default"@.take(9) == "--layout="@);
    assert("--layout=reverse"@.take(9) == "--layout="@);
    assert("--layout=reverse-list"@.take(9) == "--layout="@);
    assert("--layout=default"@.skip(9) == "default"@);
    assert("--layout=reverse"@.skip(9) == "reverse"@);
    assert("--layout=reverse-list"@.skip(9) == "reverse-list"@);
    if t != "--reverse"@ && t != "--tac"@ && t != "--no-tac"@ && !has_prefix(t, "--layout"@) {
        assert(t != "--layout"@) by {
            if t == "--layout"@ {
                assert(t.take(8) == t);
            }
        }
        assert(!has_prefix(t, "--layout="@)) by {
            if has_prefix(t, "--layout="@) {
                assert(t.take(8) == t.take(9).take(8));
                assert("--layout="@.take(8) == "--layout"@);
            }
        }
    }
}

/// The options file is read first and `FZF_DEFAULT_OPTS` after it, each from
/// the configuration the earlier one left.
pub proof fn law_file_then_environment(f: Seq<char>, e: Seq<char>)
    ensures
        fzf_config_for(Some(f), Some(e)) == apply_tokens(
            apply_tokens(FzfConfig { layout: FzfLayout::Default, tac: false }, fzf_tokens(f), 0),
            fzf_tokens(e),
            0,
        ),
        fzf_config_for(Some(f), None) == apply_tokens(
            FzfConfig { layout: FzfLayout::Default, tac: false },
            fzf_tokens(f),
            0,
        ),
        fzf_config_for(None, Some(e)) == apply_tokens(
            FzfConfig { layout: FzfLayout::Default, tac: false },
            fzf_tokens(e),
            0,
        ),
{
}

/// Line `k` handed to fzf is the decimal index of the item it shows, a tab,
/// and that item: item `k` in order, or item `n - 1 - k` when reversed.
pub proof fn law_fzf_line_layout(items: Seq<Seq<char>>, k: int)
    requires
        0 <= k < items.len(),
    ensures
        fzf_lines(items, false).len() == items.len(),
        fzf_lines(items, true).len() == items.len(),
        fzf_lines(items, false)[k] == decimal(k as nat) + seq!['\t'] + items[k],
        fzf_lines(items, true)[k] == decimal((items.len() - 1 - k) as nat) + seq!['\t'] + items[items.len() - 1 - k],
{
}

/// The state after an opening quote `q` followed by characters that are
/// neither `q` nor a backslash: inside the quote, every character is kept.
proof fn lemma_scan_in_quote(line: Seq<char>, q: char, n: nat)
    requires
        q == '\'' || q == '"',
        1 <= n <= line.len(),
        line[0] == q,
        forall|j: int| 1 <= j < n ==> #[trigger] line[j] != q && line[j] != '\\',
    ensures
        scan_prefix(line, n) == (Seq::<Seq<char>>::empty(), line.subrange(1, n as int), Some(q), false),
    decreases n,
{
    if n == 1 {
        assert(scan_prefix(line, 0) == (Seq::<Seq<char>>::empty(), Seq::<char>::empty(), None::<char>, false));
        assert(line.subrange(1, 1) =~= Seq::<char>::empty());
    } else {
        lemma_scan_in_quote(line, q, (n - 1) as nat);
        assert(line[n - 1] != q && line[n - 1] != '\\');
        assert(line.subrange(1, n as int) == line.subrange(1, n - 1).push(line[n - 1]));
    }
}

/// A text in quotes `q` is one token, whitespace and the other quote
/// included.
proof fn lemma_quotes_group(q: char, w: Seq<char>)
    requires
        q == '\'' || q == '"',
        w.len() > 0,
        forall|j: int| 0 <= j < w.len() ==> #[trigger] w[j] != q && w[j] != '\\' && w[j] != '\n',
    ensures
        fzf_tokens(seq![q] + w + seq![q]) == seq![w],
{
    let line = seq![q] + w + seq![q];
    let n = line.len();
    assert forall|j: int| 1 <= j < n - 1 implies #[trigger] line[j] != q && line[j] != '\\' by {
        assert(line[j] == w[j - 1]);
    }
    lemma_scan_in_quote(line, q, (n - 1) as nat);
    assert(line.subrange(1, n - 1) == w);
    assert(line[n - 1] == q);
    assert(scan_prefix(line, n as nat) == (Seq::<Seq<char>>::empty(), w, None::<char>, false));
    assert forall|j: int| 0 <= j < n implies #[trigger] line[j] != '\n' by {
        if 1 <= j < n - 1 {
            assert(line[j] == w[j - 1]);
        }
    }
    crate::text::lemma_newline_index_at(line, n as int);
    assert(lines(line) == seq![line]);
    assert(trim_start(line) == line);
    assert(!is_comment(line));
    assert(line_tokens(line) == seq![w]);
    assert(seq![line].drop_last() =~= Seq::<Seq<char>>::empty());
    assert(tokens_of_lines(seq![line].drop_last()) =~= Seq::<Seq<char>>::empty());
    assert(tokens_of_lines(seq![line]) =~= seq![w]);
}

/// A single-quoted text is one token, whitespace and double quotes included.
pub proof fn law_single_quotes_group(w: Seq<char>)
    requires
        w.len() > 0,
        forall|j: int| 0 <= j < w.len() ==> #[trigger] w[j] != '\'' && w[j] != '\\' && w[j] != '\n',
    ensures
        fzf_tokens(seq!['\''] + w + seq!['\'']) == seq![w],
{
    lemma_quotes_group('\'', w);
}

/// A double-quoted text is one token, whitespace and single quotes included.
pub proof fn law_double_quotes_group(w: Seq<char>)
    requires
        w.len() > 0,
        forall|j: int| 0 <= j < w.len() ==> #[trigger] w[j] != '"' && w[j] != '\\' && w[j] != '\n',
    ensures
        fzf_tokens(seq!['"'] + w + seq!['"']) == seq![w],
{
    lemma_quotes_group('"', w);
}

/// Whether `c` stands for itself in options text: neither whitespace nor a
/// quote nor a backslash.
pub open spec fn plain_char(c: char) -> bool {
    !is_ws(c) && c != '"' && c != '\'' && c != '\\'
}

/// Reading plain characters outside quotes adds them to the token being built.
proof fn lemma_scan_plain(line: Seq<char>, i: nat, n: nat)
    requires
        i <= n <= line.len(),
        scan_prefix(line, i).2 is None,
        !scan_prefix(line, i).3,
        forall|j: int| i <= j < n ==> plain_char(#[trigger] line[j]),
    ensures
        scan_prefix(line, n) == (
            scan_prefix(line, i).0,
            scan_prefix(line, i).1 + line.subrange(i as int, n as int),
            None::<char>,
            false,
        ),
    decreases n - i,
{
    if n == i {
        assert(scan_prefix(line, i).1 + line.subrange(i as int, n as int) =~= scan_prefix(line, i).1);
    } else {
        lemma_scan_plain(line, i, (n - 1) as nat);
        assert(plain_char(line[n - 1]));
        assert(scan_prefix(line, i).1 + line.subrange(i as int, n as int) =~= (scan_prefix(line, i).1
            + line.subrange(i as int, n - 1)).push(line[n - 1]));
    }
}

/// The tokens of a single line without a newline are that line's tokens.
proof fn lemma_one_line_tokens(line: Seq<char>)
    requires
        !line.contains('\n'),
    ensures
        fzf_tokens(line) == line_tokens(line),
{
    if line.len() == 0 {
        assert(lines(line) =~= Seq::<Seq<char>>::empty());
        assert(line_tokens(line) =~= Seq::<Seq<char>>::empty()) by {
            assert(trim_start(line) == line);
        }
    } else {
        assert forall|j: int| 0 <= j < line.len() implies #[trigger] line[j] != '\n' by {
            if line[j] == '\n' {
                assert(line.contains('\n'));
            }
        }
        crate::text::lemma_newline_index_at(line, line.len() as int);
        assert(lines(line) == seq![line]);
        assert(seq![line].drop_last() =~= Seq::<Seq<char>>::empty());
        assert(tokens_of_lines(seq![line].drop_last()) =~= Seq::<Seq<char>>::empty());
        assert(tokens_of_lines(seq![line]) =~= line_tokens(line));
    }
}

/// A backslash keeps the next character, whitespace and quotes included,
/// inside the word: `a\ b` is one token, `a b`.
pub proof fn law_backslash_escapes(a: Seq<char>, ch: char, b: Seq<char>)
    requires
        forall|j: int| 0 <= j < a.len() ==> plain_char(#[trigger] a[j]),
        forall|j: int| 0 <= j < b.len() ==> plain_char(#[trigger] b[j]),
        a.len() == 0 || a[0] != '#',
        ch != '\n',
    ensures
        fzf_tokens(a + seq!['\\', ch] + b) == seq![a + seq![ch] + b],
{
    let line = a + seq!['\\', ch] + b;
    let m = a.len();
    let n = line.len();
    assert forall|j: int| 0 <= j < n implies #[trigger] line[j] != '\n' by {
        if j < m {
            assert(line[j] == a[j]);
            assert(plain_char(a[j]));
        } else if j >= m + 2 {
            assert(line[j] == b[j - m - 2]);
            assert(plain_char(b[j - m - 2]));
        }
    }
    assert(!line.contains('\n'));
    lemma_one_line_tokens(line);
    assert forall|j: int| 0 <= j < m implies plain_char(#[trigger] line[j]) by {
        assert(line[j] == a[j]);
    }
    lemma_scan_plain(line, 0, m as nat);
    assert(line.subrange(0, m as int) == a);
    assert(scan_prefix(line, 0).1 + a =~= a);
    assert(line[m as int] == '\\');
    assert(line[m as int + 1] == ch);
    assert(scan_prefix(line, (m + 1) as nat) == (Seq::<Seq<char>>::empty(), a, None::<char>, true));
    assert(scan_prefix(line, (m + 2) as nat) == (Seq::<Seq<char>>::empty(), a.push(ch), None::<char>, false));
    assert forall|j: int| m + 2 <= j < n implies plain_char(#[trigger] line[j]) by {
        assert(line[j] == b[j - m - 2]);
    }
    lemma_scan_plain(line, (m + 2) as nat, n as nat);
    assert(line.subrange(m as int + 2, n as int) == b);
    assert(a.push(ch) + b =~= a + seq![ch] + b);
    assert(!is_ws(line[0])) by {
        if m > 0 {
            assert(line[0] == a[0]);
        }
    }
    assert(trim_start(line) == line);
    assert(line[0] != '#') by {
        if m > 0 {
            assert(line[0] == a[0]);
        }
    }
    assert(line_tokens(line) =~= seq![a + seq![ch] + b]);
}

/// Leading whitespace is skipped before the first other character.
proof fn lemma_trim_start_ws(ws: Seq<char>, x: Seq<char>)
    requires
        forall|j: int| 0 <= j < ws.len() ==> is_ws(#[trigger] ws[j]),
    ensures
        trim_start(ws + x) == trim_start(x),
    decreases ws.len(),
{
    if ws.len() > 0 {
        assert((ws + x).drop_first() == ws.drop_first() + x);
        assert((ws + x)[0] == ws[0]);
        assert forall|j: int| 0 <= j < ws.drop_first().len() implies is_ws(#[trigger] ws.drop_first()[j]) by {
            assert(ws.drop_first()[j] == ws[j + 1]);
        }
        lemma_trim_start_ws(ws.drop_first(), x);
    } else {
        assert(ws + x == x);
    }
}

/// A line whose first character other than whitespace is `#` is a comment:
/// it gives no tokens, and the lines after it are read as if it were not
/// there.
pub proof fn law_comment_lines_are_skipped(ws: Seq<char>, c: Seq<char>, rest: Seq<char>)
    requires
        forall|j: int| 0 <= j < ws.len() ==> is_ws(#[trigger] ws[j]) && ws[j] != '\n',
        !c.contains('\n'),
    ensures
        fzf_tokens(ws + seq!['#'] + c + seq!['\n'] + rest) == fzf_tokens(rest),
{
    let l = ws + seq!['#'] + c;
    assert forall|j: int| 0 <= j < l.len() implies #[trigger] l[j] != '\n' by {
        if j < ws.len() {
            assert(l[j] == ws[j]);
        } else if j > ws.len() {
            assert(l[j] == c[j - ws.len() - 1]);
        }
    }
    assert(!l.contains('\n'));
    crate::text::lemma_single_line(l);
    let head = l + seq!['\n'];
    assert(head.last() == '\n');
    crate::text::lemma_lines_append(head, rest);
    assert(ws + seq!['#'] + c + seq!['\n'] + rest == head + rest);
    let sl = crate::text::strip_cr(l);
    let c2 = if c.len() > 0 && c.last() == '\r' {
        c.drop_last()
    } else {
        c
    };
    assert(sl =~= ws + (seq!['#'] + c2));
    lemma_trim_start_ws(ws, seq!['#'] + c2);
    assert(!is_ws('#'));
    assert(trim_start(seq!['#'] + c2) == seq!['#'] + c2);
    assert(is_comment(sl));
    assert(line_tokens(sl) =~= Seq::<Seq<char>>::empty());
    assert(seq![sl].drop_last() =~= Seq::<Seq<char>>::empty());
    assert(tokens_of_lines(seq![sl].drop_last()) =~= Seq::<Seq<char>>::empty());
    assert(tokens_of_lines(seq![sl]) =~= Seq::<Seq<char>>::empty());
    lemma_tokens_of_lines_append(seq![sl], lines(rest));
    assert(seq![sl] + lines(rest) == lines(head) + lines(rest));
    assert(tokens_of_lines(seq![sl]) + tokens_of_lines(lines(rest)) =~= tokens_of_lines(lines(rest)));
}

} // verus!
