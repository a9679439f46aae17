use vstd::prelude::*;

use vstd::string::StringExecFns;

use crate::text::{decimal, decimal_string};

verus! {

/// What `regex` makes of `pattern` on `text`: `None` when the pattern does
/// not compile, else whether it matches somewhere in the text.
pub uninterp spec fn regex_matches(pattern: Seq<char>, text: Seq<char>) -> Option<bool>;

/// Relies on `regex::Regex::new` and `Regex::is_match`: compiles `pattern`
/// (an error for an invalid one) and tells whether it matches in `text`.
#[verifier::external_body]
fn pattern_matches(pattern: &str, text: &str) -> (r: Option<bool>)
    ensures
        r == regex_matches(pattern@, text@),
{
    match regex::Regex::new(pattern) {
        Ok(re) => Some(re.is_match(text)),
        Err(_) => None,
    }
}

/// A difference between a line of two versions of a file.
#[allow(non_camel_case_types, clippy::upper_case_acronyms)]
#[derive(Clone, Debug)]
pub struct DIFF {
    pub line_number: i32,
    pub reverted: bool,
    pub original_line: String,
    pub new_line: String,
}

impl DIFF {
    pub fn new(line_number: i32, reverted: bool, original_line: String, new_line: String) -> (r:
        DIFF)
        ensures
            r.line_number == line_number,
            r.reverted == reverted,
            r.original_line@ == original_line@,
            r.new_line@ == new_line@,
    {
        DIFF { line_number, reverted, original_line, new_line }
    }
}

/// The separator between the fields of an entry.
pub open spec fn separator() -> Seq<char> {
    seq!['#', '=', '#']
}

/// A line as an entry shows it: `EMPTY` for an empty one.
pub open spec fn shown(s: Seq<char>) -> Seq<char> {
    if s.len() == 0 {
        seq!['E', 'M', 'P', 'T', 'Y']
    } else {
        s
    }
}

/// The decimal form of an integer, with a minus sign when negative.
pub open spec fn signed_decimal(n: int) -> Seq<char> {
    if n < 0 {
        seq!['-'] + decimal((-n) as nat)
    } else {
        decimal(n as nat)
    }
}

/// One entry: line number, then the lines before and after (after and
/// before for a reverted difference), each closed by the separator, and a
/// line break.
pub open spec fn diff_entry(d: DIFF) -> Seq<char> {
    let (a, b) = if d.reverted {
        (d.new_line@, d.original_line@)
    } else {
        (d.original_line@, d.new_line@)
    };
    signed_decimal(d.line_number as int) + separator() + shown(a) + separator() + shown(b)
        + separator() + seq!['\n']
}

/// The entries of all differences, in order.
pub open spec fn diff_text(ds: Seq<DIFF>) -> Seq<char>
    decreases ds.len(),
{
    if ds.len() == 0 {
        Seq::empty()
    } else {
        diff_text(ds.drop_last()) + diff_entry(ds.last())
    }
}

fn append_shown(out: &mut String, s: &String)
    ensures
        final(out)@ == old(out)@ + shown(s@),
{
    proof {
        reveal_strlit("EMPTY");
        assert("EMPTY"@ =~= seq!['E', 'M', 'P', 'T', 'Y']);
    }
    if s.as_str().is_empty() {
        out.append("EMPTY");
    } else {
        out.append(s.as_str());
    }
}

/// The text of a list of differences, one entry per line.
#[verifier::rlimit(50)]
pub fn create_diff_string(diff_container: Vec<DIFF>) -> (r: String)
    ensures
        r@ == diff_text(diff_container@),
{
    let mut diff_to_write = String::new();
    let mut i: usize = 0;
    proof {
        reveal_strlit("#=#");
        reveal_strlit("#=#\n");
        reveal_strlit("-");
        assert("#=#"@ =~= separator());
        assert("#=#\n"@ =~= separator() + seq!['\n']);
        assert("-"@ =~= seq!['-']);
    }
    while i < diff_container.len()
        invariant
            i <= diff_container.len(),
            diff_to_write@ == diff_text(diff_container@.take(i as int)),
            "#=#"@ == separator(),
            "#=#\n"@ == separator() + seq!['\n'],
            "-"@ == seq!['-'],
        decreases diff_container.len() - i,
    {
        let diff = &diff_container[i];
        let ghost before = diff_to_write@;
        if diff.line_number < 0 {
            diff_to_write.append("-");
            let magnitude = (-(diff.line_number as i64)) as usize;
            diff_to_write.append(decimal_string(magnitude).as_str());
        } else {
            diff_to_write.append(decimal_string(diff.line_number as usize).as_str());
        }
        diff_to_write.append("#=#");
        if diff.reverted {
            append_shown(&mut diff_to_write, &diff.new_line);
            diff_to_write.append("#=#");
            append_shown(&mut diff_to_write, &diff.original_line);
        } else {
            append_shown(&mut diff_to_write, &diff.original_line);
            diff_to_write.append("#=#");
            append_shown(&mut diff_to_write, &diff.new_line);
        }
        diff_to_write.append("#=#\n");
        assert(diff_container@.take(i + 1).drop_last() =~= diff_container@.take(i as int));
        assert(diff_to_write@ =~= before + diff_entry(diff_container@[i as int]));
        i = i + 1;
    }
    assert(diff_container@.take(diff_container.len() as int) =~= diff_container@);
    diff_to_write
}

/// Whether a line counts as differing: it changed, and read as a pattern it
/// matches the new line or itself (a line that is not a valid pattern
/// matches nothing).
pub open spec fn counts_as_diff(original: Seq<char>, new: Seq<char>) -> bool {
    original != new && (regex_matches(original, new) == Some(true) || regex_matches(original, original)
        == Some(true))
}

/// Records a difference for line `current_line` when `original_line` and
/// `new_line` count as differing; returns the line number.
pub fn search_diffs(
    original_line: &str,
    new_line: &str,
    current_line: i32,
    diff_container: &mut Vec<DIFF>,
    is_reversed: bool,
) -> (r: i32)
    ensures
        r == current_line,
        if counts_as_diff(original_line@, new_line@) {
            &&& final(diff_container)@.len() == old(diff_container)@.len() + 1
            &&& final(diff_container)@.drop_last() == old(diff_container)@
            &&& final(diff_container)@.last().line_number == current_line
            &&& final(diff_container)@.last().reverted == is_reversed
            &&& final(diff_container)@.last().original_line@ == original_line@
            &&& final(diff_container)@.last().new_line@ == new_line@
        } else {
            final(diff_container)@ == old(diff_container)@
        },
{
    let a = original_line.to_owned();
    let b = new_line.to_owned();
    if a != b {
        let forward = pattern_matches(original_line, new_line);
        let itself = pattern_matches(original_line, original_line);
        if forward == Some(true) || itself == Some(true) {
            diff_container.push(DIFF::new(current_line, is_reversed, a, b));
            assert(diff_container@.drop_last() =~= old(diff_container)@);
            return current_line;
        }
    }
    current_line
}

/// A difference as plain values: line number, reverted, before, after.
pub open spec fn diff_view(d: DIFF) -> (int, bool, Seq<char>, Seq<char>) {
    (d.line_number as int, d.reverted, d.original_line@, d.new_line@)
}

pub open spec fn diffs_view(ds: Seq<DIFF>) -> Seq<(int, bool, Seq<char>, Seq<char>)> {
    ds.map_values(|d: DIFF| diff_view(d))
}

/// The differences among the first `m` lines that both versions have.
pub open spec fn found_diffs(orig: Seq<Seq<char>>, edited: Seq<Seq<char>>, rev: bool, m: nat) -> Seq<
    (int, bool, Seq<char>, Seq<char>),
>
    decreases m,
{
    if m == 0 {
        Seq::empty()
    } else {
        let rest = found_diffs(orig, edited, rev, (m - 1) as nat);
        let i = m - 1;
        if counts_as_diff(orig[i], edited[i]) {
            rest.push((i, rev, orig[i], edited[i]))
        } else {
            rest
        }
    }
}

/// The differences between two versions of a file: those of the lines both
/// have, then one addition per line only the edited version has.
pub open spec fn collect_spec(orig: Seq<Seq<char>>, edited: Seq<Seq<char>>, rev: bool) -> Seq<
    (int, bool, Seq<char>, Seq<char>),
> {
    found_diffs(orig, edited, rev, orig.len()) + Seq::new(
        (edited.len() - orig.len()) as nat,
        |k: int| (orig.len() + k, rev, Seq::<char>::empty(), edited[orig.len() + k]),
    )
}

pub open spec fn strings_view(v: Seq<String>) -> Seq<Seq<char>> {
    v.map_values(|s: String| s@)
}

/// The differences between the lines `orig` of a file and its lines
/// `edited`, which has at least as many.
pub fn collect_diffs(orig: &Vec<String>, edited_file_content: &Vec<String>, is_reversed: bool) -> (r:
    Vec<DIFF>)
    requires
        orig@.len() <= edited_file_content@.len(),
        edited_file_content@.len() <= i32::MAX,
    ensures
        diffs_view(r@) == collect_spec(strings_view(orig@), strings_view(edited_file_content@), is_reversed),
{
    let ghost ov = strings_view(orig@);
    let ghost ev = strings_view(edited_file_content@);
    let mut diff_container: Vec<DIFF> = Vec::new();
    let mut line_number: usize = 0;
    while line_number < orig.len()
        invariant
            line_number <= orig.len(),
            orig@.len() <= edited_file_content@.len() <= i32::MAX,
            ov == strings_view(orig@),
            ev == strings_view(edited_file_content@),
            diffs_view(diff_container@) == found_diffs(ov, ev, is_reversed, line_number as nat),
        decreases orig.len() - line_number,
    {
        let ghost before = diff_container@;
        let covered = search_diffs(
            orig[line_number].as_str(),
            edited_file_content[line_number].as_str(),
            line_number as i32,
            &mut diff_container,
            is_reversed,
        );
        proof {
            if counts_as_diff(ov[line_number as int], ev[line_number as int]) {
                assert(diff_container@ =~= before.push(diff_container@.last()));
            }
        }
        assert(diffs_view(diff_container@) =~= found_diffs(
            ov,
            ev,
            is_reversed,
            (line_number + 1) as nat,
        ));
        line_number = line_number + 1;
    }
    let ghost found = diffs_view(diff_container@);
    let mut line_number: usize = orig.len();
    while line_number < edited_file_content.len()
        invariant
            orig@.len() <= line_number <= edited_file_content@.len() <= i32::MAX,
            ov == strings_view(orig@),
            ev == strings_view(edited_file_content@),
            found == found_diffs(ov, ev, is_reversed, ov.len()),
            diffs_view(diff_container@) == found + Seq::new(
                (line_number - orig@.len()) as nat,
                |k: int| (ov.len() + k, is_reversed, Seq::<char>::empty(), ev[ov.len() + k]),
            ),
        decreases edited_file_content.len() - line_number,
    {
        let ghost before = diff_container@;
        let d = DIFF::new(
            line_number as i32,
            is_reversed,
            String::new(),
            edited_file_content[line_number].clone(),
        );
        assert(diff_view(d) == (line_number as int, is_reversed, Seq::<char>::empty(), ev[line_number as int]));
        diff_container.push(d);
        assert(diffs_view(diff_container@) =~= diffs_view(before).push(diff_view(d)));
        assert(diffs_view(diff_container@) =~= found + Seq::new(
            (line_number + 1 - orig@.len()) as nat,
            |k: int| (ov.len() + k, is_reversed, Seq::<char>::empty(), ev[ov.len() + k]),
        ));
        line_number = line_number + 1;
    }
    diff_container
}

} // verus!
