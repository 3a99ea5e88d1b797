//! The two body-line utilities: grouping an entry's change lines into
//! author sections, and normalizing them into a commit message.

use vstd::prelude::*;
use vstd::string::StrSliceExecFns;

verus! {

/// Is `c` whitespace in the sense the normalizer trims? The set is what
/// std's `char::is_whitespace` recognizes: the Unicode white-space code
/// points.
pub open spec fn is_blank_char(c: char) -> bool {
    ||| c as u32 == 0x20
    ||| 0x09 <= c as u32 <= 0x0D
    ||| c as u32 == 0x85
    ||| c as u32 == 0xA0
    ||| c as u32 == 0x1680
    ||| 0x2000 <= c as u32 <= 0x200A
    ||| c as u32 == 0x2028
    ||| c as u32 == 0x2029
    ||| c as u32 == 0x202F
    ||| c as u32 == 0x205F
    ||| c as u32 == 0x3000
}

/// Does `c` fall in the normalizer's whitespace set?
fn check_blank_char(c: char) -> (b: bool)
    ensures
        b == is_blank_char(c),
{
    let u = c as u32;
    u == 0x20 || (0x09 <= u && u <= 0x0D) || u == 0x85 || u == 0xA0 || u == 0x1680 || (0x2000 <= u
        && u <= 0x200A) || u == 0x2028 || u == 0x2029 || u == 0x202F || u == 0x205F || u == 0x3000
}

/// The views of a vector of borrowed lines.
pub open spec fn lines_model(v: Seq<&str>) -> Seq<Seq<char>> {
    v.map_values(|s: &str| s@)
}

/// The title of an author sub-header `[ <title> ]`, if the line is one.
pub open spec fn author_of_line(l: Seq<char>) -> Option<Seq<char>> {
    if l.len() >= 4 && l[0] == '[' && l[1] == ' ' && l[l.len() - 2] == ' ' && l[l.len() - 1]
        == ']' {
        Some(l.subrange(2, l.len() - 2))
    } else {
        None
    }
}

/// Does the line open a change, `* ` and the rest?
pub open spec fn is_bullet_line(l: Seq<char>) -> bool {
    l.len() >= 2 && l[0] == '*' && l[1] == ' '
}

/// One section of a changelog entry's body: the lines under one author
/// sub-header (or under none), with the line numbers it covers and its
/// changes grouped by bullet.
#[derive(Debug, PartialEq, Eq)]
pub struct Section<'a> {
    /// The author named by the sub-header, if any.
    pub title: Option<&'a str>,
    /// The line numbers belonging to the section, in order.
    pub linenos: Vec<usize>,
    /// The change groups: each a bullet line and its continuations.
    pub changes: Vec<Vec<(usize, &'a str)>>,
}

/// What a section denotes.
#[verifier::ext_equal]
pub struct SectionModel {
    pub title: Option<Seq<char>>,
    pub linenos: Seq<int>,
    pub changes: Seq<Seq<(int, Seq<char>)>>,
}

pub open spec fn group_model(g: Seq<(usize, &str)>) -> Seq<(int, Seq<char>)> {
    g.map_values(|p: (usize, &str)| (p.0 as int, p.1@))
}

pub open spec fn groups_model(gs: Seq<Vec<(usize, &str)>>) -> Seq<Seq<(int, Seq<char>)>> {
    gs.map_values(|g: Vec<(usize, &str)>| group_model(g@))
}

pub open spec fn linenos_model(v: Seq<usize>) -> Seq<int> {
    v.map_values(|x: usize| x as int)
}

pub open spec fn title_model(t: Option<&str>) -> Option<Seq<char>> {
    match t {
        Some(s) => Some(s@),
        None => None,
    }
}

pub open spec fn section_model(s: Section) -> SectionModel {
    SectionModel {
        title: title_model(s.title),
        linenos: linenos_model(s.linenos@),
        changes: groups_model(s.changes@),
    }
}

pub open spec fn sections_model(ss: Seq<Section>) -> Seq<SectionModel> {
    ss.map_values(|s: Section| section_model(s))
}

/// The splitter's running state: the finished sections, the open section's
/// fields, and the open change group.
#[verifier::ext_equal]
pub struct SplitState {
    pub done: Seq<SectionModel>,
    pub title: Option<Seq<char>>,
    pub linenos: Seq<int>,
    pub changes: Seq<Seq<(int, Seq<char>)>>,
    pub change: Seq<(int, Seq<char>)>,
}

pub open spec fn split_init() -> SplitState {
    SplitState {
        done: Seq::empty(),
        title: None,
        linenos: Seq::empty(),
        changes: Seq::empty(),
        change: Seq::empty(),
    }
}

/// The open section's changes once the open group is folded in.
pub open spec fn flushed_changes(st: SplitState) -> Seq<Seq<(int, Seq<char>)>> {
    if st.change.len() > 0 {
        st.changes.push(st.change)
    } else {
        st.changes
    }
}

/// The finished sections once the open section is folded in; a section that
/// covers no line is dropped.
pub open spec fn flushed_sections(st: SplitState) -> Seq<SectionModel> {
    if st.linenos.len() > 0 {
        st.done.push(
            SectionModel { title: st.title, linenos: st.linenos, changes: flushed_changes(st) },
        )
    } else {
        st.done
    }
}

/// One line of the splitter: line `i` of the body, with text `line`.
pub open spec fn split_step(st: SplitState, i: int, line: Seq<char>) -> SplitState {
    if line.len() == 0 && i == 0 {
        // The leading blank line is skipped.
        st
    } else if line.len() == 0 {
        SplitState { linenos: st.linenos.push(i), ..st }
    } else {
        match author_of_line(line) {
            Some(author) => SplitState {
                done: flushed_sections(st),
                title: Some(author),
                linenos: seq![i],
                changes: Seq::empty(),
                change: Seq::empty(),
            },
            None => {
                if is_bullet_line(line) {
                    SplitState {
                        done: st.done,
                        title: st.title,
                        linenos: st.linenos.push(i),
                        changes: if st.change.len() > 0 {
                            st.changes.push(st.change)
                        } else {
                            st.changes
                        },
                        change: seq![(i, line)],
                    }
                } else {
                    SplitState {
                        linenos: st.linenos.push(i),
                        change: st.change.push((i, line)),
                        ..st
                    }
                }
            },
        }
    }
}

/// The splitter's state after the first `n` lines.
pub open spec fn split_fold(lines: Seq<Seq<char>>, n: int) -> SplitState
    decreases n,
{
    if n <= 0 {
        split_init()
    } else {
        split_step(split_fold(lines, n - 1), n - 1, lines[n - 1])
    }
}

/// The sections of a list of body lines: what [`changes_sections`] returns.
pub open spec fn sections_spec(lines: Seq<Seq<char>>) -> Seq<SectionModel> {
    flushed_sections(split_fold(lines, lines.len() as int))
}

/// Is this line an author sub-header, and of whom?
fn author_of(line: &str) -> (r: Option<&str>)
    ensures
        match author_of_line(line@) {
            Some(t) => r matches Some(s) && s@ == t,
            None => r is None,
        },
{
    let n = line.unicode_len();
    if n >= 4 && line.get_char(0) == '[' && line.get_char(1) == ' ' && line.get_char(n - 2) == ' '
        && line.get_char(n - 1) == ']' {
        Some(line.substring_char(2, n - 2))
    } else {
        None
    }
}

/// Does this line start a change group?
fn is_bullet(line: &str) -> (r: bool)
    ensures
        r == is_bullet_line(line@),
{
    let n = line.unicode_len();
    n >= 2 && line.get_char(0) == '*' && line.get_char(1) == ' '
}

/// Split a changelog entry's body lines into author sections.
///
/// A line `[ <title> ]` opens a section of that author; a line `* …` opens a
/// change group within the section; any other non-blank line continues the
/// open group; blank lines are recorded in the section's line numbers, with
/// a leading blank line skipped. Sections that cover no line are dropped.
#[verifier::loop_isolation(false)]
pub fn changes_sections<'a>(lines: Vec<&'a str>) -> (r: Vec<Section<'a>>)
    ensures
        sections_model(r@) == sections_spec(lines_model(lines@)),
{
    let ghost lm = lines_model(lines@);
    let mut ret: Vec<Section<'a>> = Vec::new();
    let mut title: Option<&'a str> = None;
    let mut linenos: Vec<usize> = Vec::new();
    let mut changes: Vec<Vec<(usize, &'a str)>> = Vec::new();
    let mut change: Vec<(usize, &'a str)> = Vec::new();
    let mut i: usize = 0;
    proof {
        assert(sections_model(ret@) =~= split_init().done);
        assert(linenos_model(linenos@) =~= split_init().linenos);
        assert(groups_model(changes@) =~= split_init().changes);
        assert(group_model(change@) =~= split_init().change);
    }
    while i < lines.len()
        invariant
            i <= lines.len(),
            sections_model(ret@) == split_fold(lm, i as int).done,
            title_model(title) == split_fold(lm, i as int).title,
            linenos_model(linenos@) == split_fold(lm, i as int).linenos,
            groups_model(changes@) == split_fold(lm, i as int).changes,
            group_model(change@) == split_fold(lm, i as int).change,
        decreases lines.len() - i,
    {
        let ghost st = split_fold(lm, i as int);
        let line = lines[i];
        proof {
            assert(lm[i as int] == line@);
            assert(split_fold(lm, i + 1) == split_step(st, i as int, line@));
        }
        if line.unicode_len() == 0 {
            if i != 0 {
                linenos.push(i);
                proof {
                    assert(linenos_model(linenos@) =~= st.linenos.push(i as int));
                }
            }
        } else {
            match author_of(line) {
                Some(author) => {
                    let ch = change;
                    change = Vec::new();
                    let cs = changes;
                    changes = Vec::new();
                    let ln = linenos;
                    linenos = Vec::new();
                    proof {
                        if ch@.len() > 0 {
                            assert(groups_model(cs@.push(ch)) =~= groups_model(cs@).push(
                                group_model(ch@),
                            ));
                        }
                    }
                    let mut full_changes = cs;
                    if ch.len() > 0 {
                        full_changes.push(ch);
                    }
                    proof {
                        assert(groups_model(full_changes@) == flushed_changes(st));
                    }
                    if ln.len() > 0 {
                        let sec = Section { title, linenos: ln, changes: full_changes };
                        proof {
                            assert(sections_model(ret@.push(sec)) =~= sections_model(ret@).push(
                                section_model(sec),
                            ));
                        }
                        ret.push(sec);
                    }
                    proof {
                        assert(sections_model(ret@) == flushed_sections(st));
                    }
                    title = Some(author);
                    linenos.push(i);
                    proof {
                        assert(linenos_model(linenos@) =~= seq![i as int]);
                        assert(groups_model(changes@) =~= Seq::<Seq<(int, Seq<char>)>>::empty());
                        assert(group_model(change@) =~= Seq::<(int, Seq<char>)>::empty());
                    }
                },
                None => {
                    if is_bullet(line) {
                        let ch = change;
                        change = Vec::new();
                        proof {
                            if ch@.len() > 0 {
                                assert(groups_model(changes@.push(ch)) =~= groups_model(
                                    changes@,
                                ).push(group_model(ch@)));
                            }
                        }
                        if ch.len() > 0 {
                            changes.push(ch);
                        }
                        change.push((i, line));
                        linenos.push(i);
                        proof {
                            assert(group_model(change@) =~= seq![(i as int, line@)]);
                            assert(linenos_model(linenos@) =~= st.linenos.push(i as int));
                        }
                    } else {
                        change.push((i, line));
                        linenos.push(i);
                        proof {
                            assert(group_model(change@) =~= st.change.push((i as int, line@)));
                            assert(linenos_model(linenos@) =~= st.linenos.push(i as int));
                        }
                    }
                },
            }
        }
        i = i + 1;
    }
    let ch = change;
    proof {
        if ch@.len() > 0 {
            assert(groups_model(changes@.push(ch)) =~= groups_model(changes@).push(
                group_model(ch@),
            ));
        }
    }
    if ch.len() > 0 {
        changes.push(ch);
    }
    if linenos.len() > 0 {
        let sec = Section { title, linenos, changes };
        proof {
            assert(sections_model(ret@.push(sec)) =~= sections_model(ret@).push(
                section_model(sec),
            ));
        }
        ret.push(sec);
    }
    proof {
        assert(sections_model(ret@) == sections_spec(lm));
    }
    ret
}

/// One flattened row per change group: the section's author, the group's
/// line numbers, the group's lines.
pub open spec fn rows_of(s: SectionModel) -> Seq<(Option<Seq<char>>, Seq<int>, Seq<Seq<char>>)> {
    s.changes.map_values(
        |g: Seq<(int, Seq<char>)>|
            (
                s.title,
                g.map_values(|p: (int, Seq<char>)| p.0),
                g.map_values(|p: (int, Seq<char>)| p.1),
            ),
    )
}

/// The rows of all sections, in order.
pub open spec fn author_rows(ss: Seq<SectionModel>) -> Seq<(Option<Seq<char>>, Seq<int>, Seq<Seq<
    char,
>>)>
    decreases ss.len(),
{
    if ss.len() == 0 {
        Seq::empty()
    } else {
        rows_of(ss.first()) + author_rows(ss.drop_first())
    }
}

pub proof fn lemma_author_rows_push(ss: Seq<SectionModel>, s: SectionModel)
    ensures
        author_rows(ss.push(s)) == author_rows(ss) + rows_of(s),
    decreases ss.len(),
{
    if ss.len() == 0 {
        assert(ss.push(s).drop_first() =~= Seq::<SectionModel>::empty());
        assert(ss.push(s).first() == s);
        assert(author_rows(ss.push(s)) == rows_of(s) + author_rows(Seq::empty()));
        assert(rows_of(s) + author_rows(Seq::empty()) =~= rows_of(s));
        assert(author_rows(ss) + rows_of(s) =~= rows_of(s));
    } else {
        assert(ss.push(s).drop_first() =~= ss.drop_first().push(s));
        lemma_author_rows_push(ss.drop_first(), s);
        assert(author_rows(ss.push(s)) =~= author_rows(ss) + rows_of(s));
    }
}

/// The views of a vector of flattened rows.
pub open spec fn rows_model(rs: Seq<(Option<&str>, Vec<usize>, Vec<&str>)>) -> Seq<(Option<Seq<
    char,
>>, Seq<int>, Seq<Seq<char>>)> {
    rs.map_values(
        |r: (Option<&str>, Vec<usize>, Vec<&str>)|
            (title_model(r.0), linenos_model(r.1@), lines_model(r.2@)),
    )
}

/// The change groups of a body, one row per group: the group's author, its
/// line numbers, and its lines.
#[verifier::loop_isolation(false)]
pub fn changes_by_author<'a>(changes: Vec<&'a str>) -> (r: Vec<(Option<&'a str>, Vec<usize>, Vec<
    &'a str,
>)>)
    ensures
        rows_model(r@) == author_rows(sections_spec(lines_model(changes@))),
{
    let sections = changes_sections(changes);
    let ghost sm = sections_model(sections@);
    let mut out: Vec<(Option<&'a str>, Vec<usize>, Vec<&'a str>)> = Vec::new();
    let mut i: usize = 0;
    proof {
        assert(sm.subrange(0, 0) =~= Seq::<SectionModel>::empty());
        assert(rows_model(out@) =~= author_rows(sm.subrange(0, 0)));
    }
    while i < sections.len()
        invariant
            i <= sections.len(),
            sm == sections_model(sections@),
            rows_model(out@) == author_rows(sm.subrange(0, i as int)),
        decreases sections.len() - i,
    {
        let ghost smi = sm[i as int];
        proof {
            assert(smi == section_model(sections@[i as int]));
        }
        let section = &sections[i];
        let groups = &section.changes;
        let mut j: usize = 0;
        proof {
            assert(rows_of(smi).subrange(0, 0) =~= Seq::<(Option<Seq<char>>, Seq<int>, Seq<Seq<
                char,
            >>)>::empty());
            assert(rows_model(out@) + rows_of(smi).subrange(0, 0) =~= rows_model(out@));
        }
        while j < groups.len()
            invariant
                j <= groups.len(),
                rows_model(out@) == author_rows(sm.subrange(0, i as int)) + rows_of(
                    smi,
                ).subrange(0, j as int),
            decreases groups.len() - j,
        {
            let g = &groups[j];
            let ghost gm = group_model(g@);
            proof {
                assert(smi.changes[j as int] == gm);
                assert(rows_of(smi)[j as int] == (
                    smi.title,
                    gm.map_values(|p: (int, Seq<char>)| p.0),
                    gm.map_values(|p: (int, Seq<char>)| p.1),
                ));
            }
            let mut ls: Vec<usize> = Vec::new();
            let mut ts: Vec<&'a str> = Vec::new();
            let mut k: usize = 0;
            while k < g.len()
                invariant
                    k <= g.len(),
                    ls@.len() == k,
                    ts@.len() == k,
                    forall|m: int| 0 <= m < k ==> ls@[m] == g@[m].0,
                    forall|m: int| 0 <= m < k ==> ts@[m] == g@[m].1,
                decreases g.len() - k,
            {
                ls.push(g[k].0);
                ts.push(g[k].1);
                k = k + 1;
            }
            proof {
                assert(linenos_model(ls@) =~= gm.map_values(|p: (int, Seq<char>)| p.0));
                assert(lines_model(ts@) =~= gm.map_values(|p: (int, Seq<char>)| p.1));
            }
            let row = (section.title, ls, ts);
            proof {
                assert(title_model(row.0) == smi.title);
                assert(rows_model(out@.push(row)) =~= rows_model(out@).push(
                    (title_model(row.0), linenos_model(row.1@), lines_model(row.2@)),
                ));
                assert(rows_of(smi).subrange(0, j + 1) =~= rows_of(smi).subrange(0, j as int).push(
                    rows_of(smi)[j as int],
                ));
                assert(rows_model(out@).push((title_model(row.0), linenos_model(row.1@), lines_model(
                    row.2@,
                ))) =~= author_rows(sm.subrange(0, i as int)) + rows_of(smi).subrange(0, j + 1));
            }
            out.push(row);
            j = j + 1;
        }
        proof {
            assert(rows_of(smi).subrange(0, rows_of(smi).len() as int) =~= rows_of(smi));
            lemma_author_rows_push(sm.subrange(0, i as int), smi);
            assert(sm.subrange(0, i + 1) =~= sm.subrange(0, i as int).push(smi));
        }
        i = i + 1;
    }
    proof {
        assert(sm.subrange(0, sm.len() as int) =~= sm);
    }
    out
}

/// Is the line whitespace-only?
pub open spec fn is_blank(l: Seq<char>) -> bool {
    forall|i: int| 0 <= i < l.len() ==> is_blank_char(#[trigger] l[i])
}

/// The lines with trailing blank lines removed.
pub open spec fn drop_trailing_blank(ls: Seq<Seq<char>>) -> Seq<Seq<char>>
    decreases ls.len(),
{
    if ls.len() > 0 && is_blank(ls.last()) {
        drop_trailing_blank(ls.drop_last())
    } else {
        ls
    }
}

/// The lines with leading blank lines removed.
pub open spec fn drop_leading_blank(ls: Seq<Seq<char>>) -> Seq<Seq<char>>
    decreases ls.len(),
{
    if ls.len() > 0 && is_blank(ls.first()) {
        drop_leading_blank(ls.drop_first())
    } else {
        ls
    }
}

/// A line with its indentation removed: two-space and tab prefixes are
/// stripped until neither is in front.
pub open spec fn strip_indent(l: Seq<char>) -> Seq<char>
    decreases l.len(),
{
    if l.len() >= 2 && l[0] == ' ' && l[1] == ' ' {
        strip_indent(l.subrange(2, l.len() as int))
    } else if l.len() >= 1 && l[0] == '\t' {
        strip_indent(l.subrange(1, l.len() as int))
    } else {
        l
    }
}

/// A line with its leading whitespace removed.
pub open spec fn trim_start_spec(l: Seq<char>) -> Seq<char>
    decreases l.len(),
{
    if l.len() >= 1 && is_blank_char(l.first()) {
        trim_start_spec(l.drop_first())
    } else {
        l
    }
}

pub open spec fn is_bullet_char(c: char) -> bool {
    c == '*' || c == '+' || c == '-'
}

/// A line with its single leading bullet removed: leading whitespace, then
/// a bullet character and a space, then the rest, trimmed again.
pub open spec fn debullet(l: Seq<char>) -> Seq<char> {
    let t = trim_start_spec(l);
    if t.len() >= 2 && is_bullet_char(t[0]) && t[1] == ' ' {
        trim_start_spec(t.subrange(1, t.len() as int))
    } else {
        t
    }
}

/// The normalized commit-message lines: blank edges dropped, indentation
/// stripped, and, when exactly one line remains, its bullet removed too.
pub open spec fn strip_spec(ls: Seq<Seq<char>>) -> Seq<Seq<char>> {
    let kept = drop_leading_blank(drop_trailing_blank(ls));
    let indented = kept.map_values(|l: Seq<char>| strip_indent(l));
    let deb = indented.map_values(|l: Seq<char>| debullet(l));
    if deb.len() == 1 {
        deb
    } else {
        indented
    }
}

fn is_blank_line(l: &str) -> (b: bool)
    ensures
        b == is_blank(l@),
{
    let n = l.unicode_len();
    let mut i: usize = 0;
    while i < n
        invariant
            i <= n,
            n == l@.len(),
            forall|j: int| 0 <= j < i ==> is_blank_char(#[trigger] l@[j]),
        decreases n - i,
    {
        let c = l.get_char(i);
        if !check_blank_char(c) {
            return false;
        }
        i = i + 1;
    }
    true
}

#[verifier::loop_isolation(false)]
fn strip_indent_line<'a>(l: &'a str) -> (r: &'a str)
    ensures
        r@ == strip_indent(l@),
{
    let n = l.unicode_len();
    let mut j: usize = 0;
    proof {
        assert(l@.subrange(0, n as int) =~= l@);
    }
    loop
        invariant
            j <= n,
            n == l@.len(),
            strip_indent(l@) == strip_indent(l@.subrange(j as int, n as int)),
        decreases n - j,
    {
        let ghost rest = l@.subrange(j as int, n as int);
        if n - j >= 2 && l.get_char(j) == ' ' && l.get_char(j + 1) == ' ' {
            proof {
                assert(rest.subrange(2, rest.len() as int) =~= l@.subrange(j + 2, n as int));
            }
            j = j + 2;
        } else if n - j >= 1 && l.get_char(j) == '\t' {
            proof {
                assert(rest.subrange(1, rest.len() as int) =~= l@.subrange(j + 1, n as int));
            }
            j = j + 1;
        } else {
            break;
        }
    }
    l.substring_char(j, n)
}

#[verifier::loop_isolation(false)]
fn trim_start_line<'a>(l: &'a str) -> (r: &'a str)
    ensures
        r@ == trim_start_spec(l@),
{
    let n = l.unicode_len();
    let mut j: usize = 0;
    proof {
        assert(l@.subrange(0, n as int) =~= l@);
    }
    while j < n && check_blank_char(l.get_char(j))
        invariant
            j <= n,
            n == l@.len(),
            trim_start_spec(l@) == trim_start_spec(l@.subrange(j as int, n as int)),
        decreases n - j,
    {
        proof {
            let rest = l@.subrange(j as int, n as int);
            assert(rest.drop_first() =~= l@.subrange(j + 1, n as int));
        }
        j = j + 1;
    }
    l.substring_char(j, n)
}

fn debullet_line<'a>(l: &'a str) -> (r: &'a str)
    ensures
        r@ == debullet(l@),
{
    let t = trim_start_line(l);
    let n = t.unicode_len();
    if n >= 2 {
        let c = t.get_char(0);
        if (c == '*' || c == '+' || c == '-') && t.get_char(1) == ' ' {
            let rest = t.substring_char(1, n);
            return trim_start_line(rest);
        }
    }
    t
}

/// Normalize an entry's body lines into commit-message lines: drop blank
/// lines at either end, strip each line's indentation, and, when exactly
/// one line remains, strip its bullet as well.
#[verifier::loop_isolation(false)]
pub fn strip_for_commit_message<'a>(changes: Vec<&'a str>) -> (r: Vec<&'a str>)
    ensures
        lines_model(r@) == strip_spec(lines_model(changes@)),
{
    let ghost lm = lines_model(changes@);
    let mut hi = changes.len();
    proof {
        assert(lm.subrange(0, hi as int) =~= lm);
    }
    while hi > 0 && is_blank_line(changes[hi - 1])
        invariant
            hi <= changes.len(),
            drop_trailing_blank(lm) == drop_trailing_blank(lm.subrange(0, hi as int)),
        decreases hi,
    {
        proof {
            let part = lm.subrange(0, hi as int);
            assert(part.last() == lm[hi - 1]);
            assert(part.drop_last() =~= lm.subrange(0, hi - 1));
        }
        hi = hi - 1;
    }
    let ghost t1 = drop_trailing_blank(lm);
    proof {
        assert(t1 == lm.subrange(0, hi as int));
    }
    let mut lo: usize = 0;
    proof {
        assert(lm.subrange(0, hi as int) =~= lm.subrange(0 as int, hi as int));
    }
    while lo < hi && is_blank_line(changes[lo])
        invariant
            lo <= hi <= changes.len(),
            drop_leading_blank(t1) == drop_leading_blank(lm.subrange(lo as int, hi as int)),
        decreases hi - lo,
    {
        proof {
            let part = lm.subrange(lo as int, hi as int);
            assert(part.first() == lm[lo as int]);
            assert(part.drop_first() =~= lm.subrange(lo + 1, hi as int));
        }
        lo = lo + 1;
    }
    let ghost kept = drop_leading_blank(t1);
    proof {
        assert(kept == lm.subrange(lo as int, hi as int));
    }
    let mut indented: Vec<&'a str> = Vec::new();
    let mut k = lo;
    while k < hi
        invariant
            lo <= k <= hi <= changes.len(),
            indented@.len() == k - lo,
            forall|m: int| 0 <= m < k - lo ==> (#[trigger] indented@[m])@ == strip_indent(kept[m]),
        decreases hi - k,
    {
        proof {
            assert(kept[k - lo] == lm[k as int]);
        }
        indented.push(strip_indent_line(changes[k]));
        k = k + 1;
    }
    let mut deb: Vec<&'a str> = Vec::new();
    let mut k2: usize = 0;
    while k2 < indented.len()
        invariant
            k2 <= indented@.len(),
            indented@.len() == hi - lo,
            forall|m: int| 0 <= m < indented@.len() ==> (#[trigger] indented@[m])@ == strip_indent(
                kept[m],
            ),
            deb@.len() == k2,
            forall|m: int| 0 <= m < k2 ==> (#[trigger] deb@[m])@ == debullet(strip_indent(kept[m])),
        decreases indented.len() - k2,
    {
        deb.push(debullet_line(indented[k2]));
        k2 = k2 + 1;
    }
    proof {
        let ind_spec = kept.map_values(|l: Seq<char>| strip_indent(l));
        let deb_spec = ind_spec.map_values(|l: Seq<char>| debullet(l));
        assert(lines_model(indented@) =~= ind_spec);
        assert(lines_model(deb@) =~= deb_spec);
    }
    if deb.len() == 1 {
        deb
    } else {
        indented
    }
}

/// The line numbers of a run of sections, concatenated in order.
pub open spec fn all_linenos(ss: Seq<SectionModel>) -> Seq<int>
    decreases ss.len(),
{
    if ss.len() == 0 {
        Seq::empty()
    } else {
        ss.first().linenos + all_linenos(ss.drop_first())
    }
}

pub proof fn lemma_all_linenos_push(ss: Seq<SectionModel>, s: SectionModel)
    ensures
        all_linenos(ss.push(s)) == all_linenos(ss) + s.linenos,
    decreases ss.len(),
{
    if ss.len() == 0 {
        assert(ss.push(s).drop_first() =~= Seq::<SectionModel>::empty());
        assert(ss.push(s).first() == s);
        assert(all_linenos(ss.push(s)) == s.linenos + all_linenos(Seq::empty()));
        assert(s.linenos + all_linenos(Seq::empty()) =~= s.linenos);
        assert(all_linenos(ss) + s.linenos =~= s.linenos);
    } else {
        assert(ss.push(s).drop_first() =~= ss.drop_first().push(s));
        lemma_all_linenos_push(ss.drop_first(), s);
        assert(all_linenos(ss.push(s)) =~= all_linenos(ss) + s.linenos);
    }
}

/// The ascending run of indices from `a` up to but not including `b`.
pub open spec fn index_range(a: int, b: int) -> Seq<int> {
    Seq::new((b - a) as nat, |k: int| a + k)
}

/// The indices the splitter preserves among the first `n` lines: all of
/// them, except a blank first line's.
pub open spec fn preserved_indices(lines: Seq<Seq<char>>, n: int) -> Seq<int> {
    if n > 0 && lines[0].len() == 0 {
        index_range(1, n)
    } else {
        index_range(0, n)
    }
}

proof fn lemma_split_fold_linenos(lines: Seq<Seq<char>>, n: int)
    requires
        0 <= n <= lines.len(),
    ensures
        all_linenos(split_fold(lines, n).done) + split_fold(lines, n).linenos == preserved_indices(
            lines,
            n,
        ),
    decreases n,
{
    if n == 0 {
        assert(all_linenos(split_fold(lines, 0).done) + split_fold(lines, 0).linenos
            =~= preserved_indices(lines, 0));
    } else {
        lemma_split_fold_linenos(lines, n - 1);
        let st = split_fold(lines, n - 1);
        let st2 = split_fold(lines, n);
        let line = lines[n - 1];
        let i = n - 1;
        if line.len() == 0 && i == 0 {
            assert(st2 == st);
            assert(preserved_indices(lines, n) =~= preserved_indices(lines, n - 1));
        } else if line.len() == 0 {
            assert(st2.done == st.done && st2.linenos == st.linenos.push(i));
            assert(all_linenos(st2.done) + st2.linenos =~= (all_linenos(st.done) + st.linenos).push(
                i,
            ));
            assert(preserved_indices(lines, n) =~= preserved_indices(lines, n - 1).push(i));
        } else {
            match author_of_line(line) {
                Some(author) => {
                    assert(st2.done == flushed_sections(st) && st2.linenos =~= seq![i]);
                    if st.linenos.len() > 0 {
                        let sec = SectionModel {
                            title: st.title,
                            linenos: st.linenos,
                            changes: flushed_changes(st),
                        };
                        lemma_all_linenos_push(st.done, sec);
                        assert(all_linenos(st2.done) + st2.linenos =~= (all_linenos(st.done)
                            + st.linenos).push(i));
                    } else {
                        assert(all_linenos(st.done) + st.linenos =~= all_linenos(st.done));
                        assert(all_linenos(st2.done) + st2.linenos =~= (all_linenos(st.done)
                            + st.linenos).push(i));
                    }
                    assert(preserved_indices(lines, n) =~= preserved_indices(lines, n - 1).push(i));
                },
                None => {
                    assert(st2.done == st.done && st2.linenos == st.linenos.push(i));
                    assert(all_linenos(st2.done) + st2.linenos =~= (all_linenos(st.done)
                        + st.linenos).push(i));
                    assert(preserved_indices(lines, n) =~= preserved_indices(lines, n - 1).push(i));
                },
            }
        }
    }
}

/// LAW — section reconstruction: concatenating the line numbers that the
/// sections of a body preserve, in order, yields exactly the body's line
/// indices, with only a blank first line omitted.
pub proof fn lemma_sections_reconstruction(lines: Seq<Seq<char>>)
    ensures
        all_linenos(sections_spec(lines)) == preserved_indices(lines, lines.len() as int),
{
    let n = lines.len() as int;
    lemma_split_fold_linenos(lines, n);
    let st = split_fold(lines, n);
    if st.linenos.len() > 0 {
        let sec = SectionModel {
            title: st.title,
            linenos: st.linenos,
            changes: flushed_changes(st),
        };
        lemma_all_linenos_push(st.done, sec);
    } else {
        assert(all_linenos(st.done) + st.linenos =~= all_linenos(st.done));
    }
}

proof fn lemma_strip_indent_shape(l: Seq<char>)
    ensures
        ({
            let r = strip_indent(l);
            !(r.len() >= 2 && r[0] == ' ' && r[1] == ' ') && !(r.len() >= 1 && r[0] == '\t')
        }),
    decreases l.len(),
{
    if l.len() >= 2 && l[0] == ' ' && l[1] == ' ' {
        lemma_strip_indent_shape(l.subrange(2, l.len() as int));
    } else if l.len() >= 1 && l[0] == '\t' {
        lemma_strip_indent_shape(l.subrange(1, l.len() as int));
    }
}

proof fn lemma_strip_indent_blank(l: Seq<char>)
    ensures
        is_blank(strip_indent(l)) == is_blank(l),
    decreases l.len(),
{
    if l.len() >= 2 && l[0] == ' ' && l[1] == ' ' {
        let rest = l.subrange(2, l.len() as int);
        lemma_strip_indent_blank(rest);
        assert(is_blank(rest) ==> is_blank(l)) by {
            if is_blank(rest) {
                assert forall|k: int| 0 <= k < l.len() implies is_blank_char(
                    #[trigger] l[k],
                ) by {
                    if k >= 2 {
                        assert(l[k] == rest[k - 2]);
                    }
                }
            }
        }
        assert(is_blank(l) ==> is_blank(rest)) by {
            if is_blank(l) {
                assert forall|k: int| 0 <= k < rest.len() implies is_blank_char(
                    #[trigger] rest[k],
                ) by {
                    assert(rest[k] == l[k + 2]);
                }
            }
        }
    } else if l.len() >= 1 && l[0] == '\t' {
        let rest = l.subrange(1, l.len() as int);
        lemma_strip_indent_blank(rest);
        assert(is_blank(rest) ==> is_blank(l)) by {
            if is_blank(rest) {
                assert forall|k: int| 0 <= k < l.len() implies is_blank_char(
                    #[trigger] l[k],
                ) by {
                    if k >= 1 {
                        assert(l[k] == rest[k - 1]);
                    }
                }
            }
        }
        assert(is_blank(l) ==> is_blank(rest)) by {
            if is_blank(l) {
                assert forall|k: int| 0 <= k < rest.len() implies is_blank_char(
                    #[trigger] rest[k],
                ) by {
                    assert(rest[k] == l[k + 1]);
                }
            }
        }
    }
}

proof fn lemma_trim_start_shape(l: Seq<char>)
    ensures
        trim_start_spec(l).len() == 0 || !is_blank_char(trim_start_spec(l)[0]),
    decreases l.len(),
{
    if l.len() >= 1 && is_blank_char(l.first()) {
        lemma_trim_start_shape(l.drop_first());
    }
}

/// The bullet-stripped line is empty or starts with a non-blank character.
proof fn lemma_debullet_shape(l: Seq<char>)
    ensures
        debullet(l).len() == 0 || !is_blank_char(debullet(l)[0]),
{
    lemma_trim_start_shape(l);
    let t = trim_start_spec(l);
    if t.len() >= 2 && is_bullet_char(t[0]) && t[1] == ' ' {
        lemma_trim_start_shape(t.subrange(1, t.len() as int));
    }
}

proof fn lemma_drop_trailing_shape(ls: Seq<Seq<char>>)
    ensures
        ({
            let r = drop_trailing_blank(ls);
            r.len() == 0 || !is_blank(r.last())
        }),
    decreases ls.len(),
{
    if ls.len() > 0 && is_blank(ls.last()) {
        lemma_drop_trailing_shape(ls.drop_last());
    }
}

proof fn lemma_drop_leading_shape(ls: Seq<Seq<char>>)
    ensures
        ({
            let r = drop_leading_blank(ls);
            &&& r.len() == 0 || !is_blank(r.first())
            &&& r.len() > 0 ==> r.last() == ls.last() && ls.len() > 0
        }),
    decreases ls.len(),
{
    if ls.len() > 0 && is_blank(ls.first()) {
        lemma_drop_leading_shape(ls.drop_first());
    }
}

/// LAW — the normalizer is idempotent: running [`strip_for_commit_message`]
/// on its own output changes nothing. The one family of inputs left out is
/// those whose normal form is a single line that is empty or still opens
/// with a bullet: there a second run strips again.
pub proof fn lemma_strip_idempotent(xs: Seq<Seq<char>>)
    requires
        strip_spec(xs).len() == 1 ==> strip_spec(xs)[0].len() > 0 && debullet(strip_spec(xs)[0])
            == strip_spec(xs)[0],
    ensures
        strip_spec(strip_spec(xs)) == strip_spec(xs),
{
    let kept = drop_leading_blank(drop_trailing_blank(xs));
    let indented = kept.map_values(|l: Seq<char>| strip_indent(l));
    let deb = indented.map_values(|l: Seq<char>| debullet(l));
    let r = strip_spec(xs);
    if deb.len() == 1 {
        // One line remains: the result is that line, bullet stripped.
        let d = deb[0];
        assert(r == deb);
        assert(d.len() > 0 && debullet(d) == d);
        lemma_debullet_shape(indented[0]);
        assert(!is_blank_char(d[0]));
        assert(!is_blank(d));
        assert(r.last() == d && r.first() == d);
        assert(drop_trailing_blank(r) == r);
        assert(drop_leading_blank(r) == r);
        assert(strip_indent(d) == d);
        let indented2 = r.map_values(|l: Seq<char>| strip_indent(l));
        assert(indented2 =~= r);
        let deb2 = indented2.map_values(|l: Seq<char>| debullet(l));
        assert(deb2 =~= r);
        assert(strip_spec(r) == deb2);
    } else {
        // Several or no lines remain: the result keeps its bullets, its
        // edges are non-blank and its indentation is already gone.
        assert(r == indented);
        if r.len() == 0 {
            assert(drop_trailing_blank(r) == r);
            assert(drop_leading_blank(r) == r);
            let indented2 = r.map_values(|l: Seq<char>| strip_indent(l));
            assert(indented2 =~= r);
            let deb2 = indented2.map_values(|l: Seq<char>| debullet(l));
            assert(deb2.len() != 1);
            assert(strip_spec(r) == indented2);
        } else {
            lemma_drop_trailing_shape(xs);
            lemma_drop_leading_shape(drop_trailing_blank(xs));
            assert(!is_blank(kept.first()) && !is_blank(kept.last()));
            lemma_strip_indent_blank(kept.first());
            lemma_strip_indent_blank(kept.last());
            assert(r.first() == strip_indent(kept.first()));
            assert(r.last() == strip_indent(kept.last()));
            assert(!is_blank(r.first()) && !is_blank(r.last()));
            assert(drop_trailing_blank(r) == r);
            assert(drop_leading_blank(r) == r);
            let indented2 = r.map_values(|l: Seq<char>| strip_indent(l));
            assert(indented2 =~= r) by {
                assert forall|m: int| 0 <= m < r.len() implies indented2[m] == r[m] by {
                    lemma_strip_indent_shape(kept[m]);
                    assert(r[m] == strip_indent(kept[m]));
                }
            }
            let deb2 = indented2.map_values(|l: Seq<char>| debullet(l));
            assert(deb2.len() == r.len());
            assert(deb2.len() != 1);
            assert(strip_spec(r) == indented2);
        }
    }
}

} // verus!
