//! Skills: what their files say of them, and which of them are offered.
use crate::json::{items_view, json_as_pretty_text, lemma_array_view, Json, JsonView};
use crate::order::{comes_before, lemma_before_total, lemma_before_trans, text_before};
use crate::text::{
    after, begins, char_is_white, is_listed, is_white, join, joined, lines, option_names, option_text, same,
    split_lines, strip_start, texts, trim, trimmed,
};
use vstd::prelude::*;
use vstd::string::*;

verus! {

/// What is known of a skill.
#[derive(Debug, PartialEq, Eq)]
pub struct SkillMeta {
    /// Its name.
    pub name: String,
    /// What it is for.
    pub description: String,
    /// The directory that holds it.
    pub source_path: String,
}

/// What a [`SkillMeta`] holds.
#[verifier::ext_equal]
pub struct SkillView {
    /// Its name.
    pub name: Seq<char>,
    /// What it is for.
    pub description: Seq<char>,
    /// The directory that holds it.
    pub source_path: Seq<char>,
}

impl View for SkillMeta {
    type V = SkillView;

    open spec fn view(&self) -> SkillView {
        SkillView {
            name: self.name@,
            description: self.description@,
            source_path: self.source_path@,
        }
    }
}

impl Clone for SkillMeta {
    /// The same skill.
    fn clone(&self) -> (r: Self)
        ensures
            r@ == self@,
    {
        SkillMeta {
            name: self.name.clone(),
            description: self.description.clone(),
            source_path: self.source_path.clone(),
        }
    }
}

/// What a list of skills holds.
pub open spec fn skills_view(skills: Seq<SkillMeta>) -> Seq<SkillView> {
    skills.map_values(|skill: SkillMeta| skill@)
}

/// What the head of a skill's file says.
#[verifier::ext_equal]
pub struct Head {
    /// The name.
    pub name: Option<Seq<char>>,
    /// The description.
    pub description: Option<Seq<char>>,
}

/// Whether a line is the mark that a head begins and ends with.
pub open spec fn is_mark(line: Seq<char>) -> bool {
    trim(line) == "---"@
}

/// Whether a line says something and is not indented.
pub open spec fn is_flush(line: Seq<char>) -> bool {
    line.len() > 0 && !is_white(line[0])
}

/// Where a text in indented lines ends, which goes on at line `i`: at the next
/// mark, at the next line that is not indented, or at the end of the file.
pub open spec fn block_end(all: Seq<Seq<char>>, i: int) -> int
    decreases all.len() - i,
{
    if i < 0 || i >= all.len() || is_mark(all[i]) || is_flush(all[i]) {
        i
    } else {
        block_end(all, i + 1)
    }
}

/// The lines without the white space around them, as far as anything is left.
pub open spec fn filled_lines(all: Seq<Seq<char>>) -> Seq<Seq<char>>
    decreases all.len(),
{
    if all.len() == 0 {
        Seq::empty()
    } else {
        let before = filled_lines(all.drop_last());
        if trim(all.last()).len() > 0 {
            before.push(trim(all.last()))
        } else {
            before
        }
    }
}

/// Whether the value says that the text follows in lines of its own.
pub open spec fn is_block_sign(value: Seq<char>) -> bool {
    value == "|"@ || value == "|-"@ || value == ">"@
}

/// Reading on one line of the head, `i`: what the head says then, and the line
/// that follows. A text in lines of its own takes in the indented lines behind
/// it; the mark or the line that ends it is read next.
pub open spec fn read_line(all: Seq<Seq<char>>, i: int, head: Head) -> (Head, int) {
    let line = trim(all[i]);
    if begins(line, "name:"@) {
        (Head { name: Some(trim(after(line, 5))), ..head }, i + 1)
    } else if begins(line, "description:"@) {
        let value = trim(after(line, 12));
        if is_block_sign(value) {
            let end = block_end(all, i + 1);
            (
                Head {
                    description: Some(joined(filled_lines(all.subrange(i + 1, end)), " "@)),
                    ..head
                },
                end,
            )
        } else if value.len() > 0 {
            (Head { description: Some(value), ..head }, i + 1)
        } else {
            (head, i + 1)
        }
    } else {
        (head, i + 1)
    }
}

/// A text ends behind the line that it goes on at.
pub proof fn lemma_block_end(all: Seq<Seq<char>>, i: int)
    requires
        0 <= i <= all.len(),
    ensures
        i <= block_end(all, i) <= all.len(),
    decreases all.len() - i,
{
    if i < all.len() && !is_mark(all[i]) && !is_flush(all[i]) {
        lemma_block_end(all, i + 1);
    }
}

/// What the head says from line `i` on, where `head` is what it said before.
pub open spec fn head_from(all: Seq<Seq<char>>, i: int, head: Head) -> Head
    decreases all.len() - i,
{
    if i < 0 || i >= all.len() || is_mark(all[i]) {
        head
    } else {
        proof {
            lemma_block_end(all, i + 1);
        }
        head_from(all, read_line(all, i, head).1, read_line(all, i, head).0)
    }
}

/// What a skill's file says of it, where it says a name and a description.
pub open spec fn skill_head(content: Seq<char>) -> Option<SkillView> {
    let all = lines(content);
    if all.len() == 0 || !is_mark(all[0]) {
        None
    } else {
        let head = head_from(all, 1, Head { name: None, description: None });
        match (head.name, head.description) {
            (Some(name), Some(description)) => if name.len() > 0 && description.len() > 0 {
                Some(SkillView { name, description, source_path: Seq::empty() })
            } else {
                None
            },
            _ => None,
        }
    }
}

/// What an optional skill holds.
pub open spec fn option_skill(skill: Option<SkillMeta>) -> Option<SkillView> {
    match skill {
        Some(skill) => Some(skill@),
        None => None,
    }
}

/// Whether a line is indented, or says nothing.
fn is_indented(line: &str) -> (r: bool)
    ensures
        r == !is_flush(line@),
{
    if line.is_empty() {
        return true;
    }
    char_is_white(line.get_char(0))
}

/// The text that follows in lines of its own, from line `from` on, and where it
/// ends.
fn read_block(all: &Vec<String>, from: usize) -> (r: (String, usize))
    requires
        from <= all@.len(),
    ensures
        r.1 == block_end(texts(all@), from as int) <= all@.len(),
        r.0@ == joined(
            filled_lines(texts(all@).subrange(from as int, block_end(texts(all@), from as int))),
            " "@,
        ),
{
    let ghost views = texts(all@);
    let n: usize = all.len();
    let mut kept: Vec<String> = Vec::new();
    let mut i: usize = from;
    assert(texts(kept@) =~= filled_lines(views.subrange(from as int, from as int)));
    while i < n
        invariant
            views == texts(all@),
            from <= i <= n == all@.len(),
            block_end(views, i as int) == block_end(views, from as int),
            texts(kept@) == filled_lines(views.subrange(from as int, i as int)),
        ensures
            i == block_end(views, from as int),
        decreases n - i,
    {
        assert(views[i as int] == all@[i as int]@);
        let line = trimmed(all[i].as_str());
        if same(line.as_str(), "---") || !is_indented(all[i].as_str()) {
            break;
        }
        proof {
            let grown = views.subrange(from as int, i + 1);
            assert(grown.drop_last() =~= views.subrange(from as int, i as int));
            assert(grown.last() == views[i as int]);
        }
        if !line.as_str().is_empty() {
            let ghost before = texts(kept@);
            kept.push(line);
            assert(texts(kept@) =~= before.push(line@));
        }
        i += 1;
    }
    (join(kept.as_slice(), " "), i)
}

/// What a skill's file says of it: the name and the description in the head
/// between marks that it begins with. Where it is from is left open.
pub fn parse_skill_frontmatter(content: &str) -> (r: Option<SkillMeta>)
    ensures
        option_skill(r) == skill_head(content@),
{
    let all = split_lines(content);
    let ghost views = texts(all@);
    let n: usize = all.len();
    if n == 0 {
        return None;
    }
    assert(views[0] == all@[0]@);
    if !same(trimmed(all[0].as_str()).as_str(), "---") {
        return None;
    }
    let mut name: Option<String> = None;
    let mut description: Option<String> = None;
    let mut i: usize = 1;
    proof {
        reveal_strlit("name:");
        reveal_strlit("description:");
    }
    while i < n
        invariant
            views == texts(all@),
            1 <= i <= n == all@.len(),
            "name:"@.len() == 5,
            "description:"@.len() == 12,
            head_from(
                views,
                i as int,
                Head {
                    name: option_text(name),
                    description: option_text(description),
                },
            ) == head_from(views, 1, Head { name: None, description: None }),
        ensures
            (Head {
                name: option_text(name),
                description: option_text(description),
            }) == head_from(views, 1, Head { name: None, description: None }),
        decreases n - i,
    {
        assert(views[i as int] == all@[i as int]@);
        proof {
            lemma_block_end(views, i + 1);
        }
        let line = trimmed(all[i].as_str());
        if same(line.as_str(), "---") {
            break;
        }
        if let Some(value) = strip_start(line.as_str(), "name:") {
            name = Some(trimmed(value.as_str()));
            i += 1;
        } else if let Some(value) = strip_start(line.as_str(), "description:") {
            let value = trimmed(value.as_str());
            if same(value.as_str(), "|") || same(value.as_str(), "|-") || same(value.as_str(), ">") {
                let (text, end) = read_block(&all, i + 1);
                description = Some(text);
                i = end;
            } else {
                if !value.as_str().is_empty() {
                    description = Some(value);
                }
                i += 1;
            }
        } else {
            i += 1;
        }
    }
    match (name, description) {
        (Some(name), Some(description)) => {
            if name.as_str().is_empty() || description.as_str().is_empty() {
                None
            } else {
                Some(SkillMeta { name, description, source_path: String::new() })
            }
        },
        _ => None,
    }
}

proof fn lemma_head_from(all: Seq<Seq<char>>, others: Seq<Seq<char>>, i: int, end: int, head: Head)
    requires
        0 <= i <= end < all.len(),
        end < others.len(),
        is_mark(all[end]),
        all.take(end + 1) == others.take(end + 1),
    ensures
        head_from(all, i, head) == head_from(others, i, head),
    decreases end - i,
{
    assert(all[end] == all.take(end + 1)[end]);
    assert(others[end] == others.take(end + 1)[end]);
    assert(all[i] == all.take(end + 1)[i]);
    assert(others[i] == others.take(end + 1)[i]);
    if i < end && !is_mark(all[i]) {
        lemma_same_block(all, others, i + 1, end);
        let next = read_line(all, i, head);
        assert(all.subrange(i + 1, block_end(all, i + 1)) =~= others.subrange(
            i + 1,
            block_end(all, i + 1),
        )) by {
            assert forall|k: int| 0 <= k < end implies all[k] == others[k] by {
                assert(all[k] == all.take(end + 1)[k]);
                assert(others[k] == others.take(end + 1)[k]);
            }
        }
        assert(next == read_line(others, i, head));
        assert(i < next.1 <= end);
        lemma_head_from(all, others, next.1, end, next.0);
    }
}

proof fn lemma_same_block(all: Seq<Seq<char>>, others: Seq<Seq<char>>, i: int, end: int)
    requires
        0 <= i <= end < all.len(),
        end < others.len(),
        is_mark(all[end]),
        all.take(end + 1) == others.take(end + 1),
    ensures
        i <= block_end(all, i) <= end,
        block_end(all, i) == block_end(others, i),
    decreases end - i,
{
    assert(all[i] == all.take(end + 1)[i]);
    assert(others[i] == others.take(end + 1)[i]);
    if !is_mark(all[i]) && !is_flush(all[i]) {
        lemma_same_block(all, others, i + 1, end);
    }
}

/// What stands behind the mark that ends the head does not matter.
pub proof fn law_head_ends_at_its_mark(content: Seq<char>, other: Seq<char>, end: int)
    requires
        1 <= end < lines(content).len(),
        end < lines(other).len(),
        is_mark(lines(content)[end]),
        lines(content).take(end + 1) == lines(other).take(end + 1),
    ensures
        skill_head(content) == skill_head(other),
{
    let all = lines(content);
    let others = lines(other);
    assert(all[0] == all.take(end + 1)[0]);
    assert(others[0] == others.take(end + 1)[0]);
    lemma_head_from(all, others, 1, end, Head { name: None, description: None });
}

/// The skills, in the order of their names, with `skill` among them: it takes
/// the place of one of the same name.
pub open spec fn with_skill(skills: Seq<SkillView>, skill: SkillView) -> Seq<SkillView>
    decreases skills.len(),
{
    if skills.len() == 0 {
        seq![skill]
    } else if text_before(skills[0].name, skill.name) {
        seq![skills[0]] + with_skill(skills.drop_first(), skill)
    } else if skills[0].name == skill.name {
        seq![skill] + skills.drop_first()
    } else {
        seq![skill] + skills
    }
}

/// The skills that were found, in the order of their names; of those of one
/// name, the one that was found last.
pub open spec fn merged(found: Seq<SkillView>) -> Seq<SkillView>
    decreases found.len(),
{
    if found.len() == 0 {
        Seq::empty()
    } else {
        with_skill(merged(found.drop_last()), found.last())
    }
}

/// Whether a skill of the name is offered: it must be on the list of those that
/// are wanted, where there is one, and not on the list of those that are not.
pub open spec fn is_offered(
    name: Seq<char>,
    wanted: Option<Seq<Seq<char>>>,
    unwanted: Option<Seq<Seq<char>>>,
) -> bool {
    &&& wanted matches Some(list) ==> list.contains(name)
    &&& unwanted matches Some(list) ==> !list.contains(name)
}

/// The skills that are offered, of those that were found.
pub open spec fn offered(
    found: Seq<SkillView>,
    wanted: Option<Seq<Seq<char>>>,
    unwanted: Option<Seq<Seq<char>>>,
) -> Seq<SkillView> {
    merged(found).filter(|skill: SkillView| is_offered(skill.name, wanted, unwanted))
}

proof fn lemma_with_skill(skills: Seq<SkillView>, skill: SkillView, i: int)
    requires
        0 <= i <= skills.len(),
        forall|k: int| 0 <= k < i ==> text_before((#[trigger] skills[k]).name, skill.name),
        i < skills.len() ==> !text_before(skills[i].name, skill.name),
    ensures
        with_skill(skills, skill) == if i < skills.len() && skills[i].name == skill.name {
            skills.update(i, skill)
        } else {
            skills.insert(i, skill)
        },
    decreases skills.len(),
{
    let r = with_skill(skills, skill);
    if skills.len() == 0 {
        assert(r =~= skills.insert(0, skill));
    } else if i == 0 {
        if skills[0].name == skill.name {
            assert(r =~= skills.update(0, skill));
        } else {
            assert(r =~= skills.insert(0, skill));
        }
    } else {
        assert(text_before(skills[0].name, skill.name));
        let rest = skills.drop_first();
        assert forall|k: int| 0 <= k < i - 1 implies text_before(
            (#[trigger] rest[k]).name,
            skill.name,
        ) by {
            assert(rest[k] == skills[k + 1]);
        }
        lemma_with_skill(rest, skill, i - 1);
        if i < skills.len() && skills[i].name == skill.name {
            assert(r =~= skills.update(i, skill));
        } else {
            assert(r =~= skills.insert(i, skill));
        }
    }
}

/// Puts a skill among the skills.
fn put_skill(skills: &mut Vec<SkillMeta>, skill: SkillMeta)
    ensures
        skills_view(final(skills)@) == with_skill(skills_view(old(skills)@), skill@),
{
    let ghost views = skills_view(skills@);
    let n: usize = skills.len();
    let mut i: usize = 0;
    while i < n && comes_before(skills[i].name.as_str(), skill.name.as_str())
        invariant
            views == skills_view(skills@),
            i <= n == skills@.len(),
            forall|k: int| 0 <= k < i ==> text_before((#[trigger] views[k]).name, skill@.name),
        decreases n - i,
    {
        assert(views[i as int] == skills@[i as int]@);
        i += 1;
    }
    proof {
        if i < n {
            assert(views[i as int] == skills@[i as int]@);
        }
        lemma_with_skill(views, skill@, i as int);
    }
    if i < n && same(skills[i].name.as_str(), skill.name.as_str()) {
        skills[i] = skill;
        assert(skills_view(skills@) =~= views.update(i as int, skill@));
    } else {
        skills.insert(i, skill);
        assert(skills_view(skills@) =~= views.insert(i as int, skill@));
    }
}

/// The skills that are offered, of those that were found, in the order of their
/// names. `found` holds them in the order in which they were found: one that is
/// found later takes the place of one of the same name.
pub fn choose_skills(
    found: Vec<SkillMeta>,
    include_names: Option<&Vec<String>>,
    exclude_names: Option<&Vec<String>>,
) -> (r: Vec<SkillMeta>)
    ensures
        skills_view(r@) == offered(
            skills_view(found@),
            option_names(include_names),
            option_names(exclude_names),
        ),
{
    let ghost views = skills_view(found@);
    let ghost all = found@;
    let mut skills: Vec<SkillMeta> = Vec::new();
    assert(skills_view(skills@) =~= merged(views.take(0)));
    for skill in it: found
        invariant
            it.seq() == all,
            views == skills_view(all),
            skills_view(skills@) == merged(views.take(it.index() as int)),
    {
        proof {
            let i = it.index() as int;
            assert(views.take(i + 1).drop_last() =~= views.take(i));
            assert(views.take(i + 1).last() == skill@);
        }
        put_skill(&mut skills, skill);
    }
    assert(views.take(all.len() as int) =~= views);
    let ghost sorted = skills_view(skills@);
    let ghost every = skills@;
    let ghost wanted = option_names(include_names);
    let ghost unwanted = option_names(exclude_names);
    let ghost keep = |skill: SkillView| is_offered(skill.name, wanted, unwanted);
    let mut out: Vec<SkillMeta> = Vec::new();
    assert(skills_view(out@) =~= sorted.take(0).filter(keep)) by {
        reveal(Seq::filter);
    }
    for skill in it: skills
        invariant
            it.seq() == every,
            sorted == skills_view(every),
            wanted == option_names(include_names),
            unwanted == option_names(exclude_names),
            keep == (|skill: SkillView| is_offered(skill.name, wanted, unwanted)),
            skills_view(out@) == sorted.take(it.index() as int).filter(keep),
    {
        proof {
            let i = it.index() as int;
            assert(sorted.take(i + 1).drop_last() =~= sorted.take(i));
            assert(sorted.take(i + 1).last() == skill@);
            reveal(Seq::filter);
        }
        let wants: bool = match include_names {
            Some(names) => is_listed(names, skill.name.as_str()),
            None => true,
        };
        let bars: bool = match exclude_names {
            Some(names) => is_listed(names, skill.name.as_str()),
            None => false,
        };
        if wants && !bars {
            let ghost before = skills_view(out@);
            out.push(skill);
            assert(skills_view(out@) =~= before.push(skill@));
        }
    }
    assert(sorted.take(every.len() as int) =~= sorted);
    out
}

/// What is said of one skill.
pub open spec fn skill_entry(skill: SkillView) -> Seq<char> {
    "- **"@ + skill.name + "** (at "@ + skill.source_path + ")\n  "@ + skill.description + "\n\n"@
}

/// What is said of each skill.
pub open spec fn skill_entries(skills: Seq<SkillView>) -> Seq<char>
    decreases skills.len(),
{
    if skills.len() == 0 {
        Seq::empty()
    } else {
        skill_entries(skills.drop_last()) + skill_entry(skills.last())
    }
}

/// What a prompt says of the skills: nothing where there are none.
pub open spec fn skills_section(skills: Seq<SkillView>) -> Seq<char> {
    if skills.len() == 0 {
        Seq::empty()
    } else {
        "## Available Skills\n\n"@
            + "**IMPORTANT: Before processing any user request, you MUST read the relevant SKILL.md file(s) using the `read <skill-path>/SKILL.md` tool. The descriptions below are summaries only and do NOT contain the full instructions you need to follow.**\n\n"@
            + skill_entries(skills)
            + "To load a skill's full instructions, use `read <skill-path>/SKILL.md`.\nAll file paths within a SKILL.md are relative to that skill's directory.\nWhen running skill scripts: cd <skill-path> && <command>\n\n"@
    }
}

/// What a prompt says of the skills: nothing where there are none.
pub fn format_skills_section(skills: &[SkillMeta]) -> (r: String)
    ensures
        r@ == skills_section(skills_view(skills@)),
{
    let ghost views = skills_view(skills@);
    if skills.len() == 0 {
        return String::new();
    }
    let mut entries = String::new();
    let mut i: usize = 0;
    while i < skills.len()
        invariant
            views == skills_view(skills@),
            i <= skills@.len(),
            entries@ == skill_entries(views.take(i as int)),
        decreases skills@.len() - i,
    {
        proof {
            assert(views.take(i + 1).drop_last() =~= views.take(i as int));
            assert(views.take(i + 1).last() == skills@[i as int]@);
        }
        let entry = "- **".to_owned().concat(skills[i].name.as_str()).concat("** (at ").concat(
            skills[i].source_path.as_str(),
        ).concat(")\n  ").concat(skills[i].description.as_str()).concat("\n\n");
        entries.append(entry.as_str());
        i += 1;
    }
    assert(views.take(skills@.len() as int) =~= views);
    "## Available Skills\n\n".to_owned().concat(
        "**IMPORTANT: Before processing any user request, you MUST read the relevant SKILL.md file(s) using the `read <skill-path>/SKILL.md` tool. The descriptions below are summaries only and do NOT contain the full instructions you need to follow.**\n\n",
    ).concat(entries.as_str()).concat(
        "To load a skill's full instructions, use `read <skill-path>/SKILL.md`.\nAll file paths within a SKILL.md are relative to that skill's directory.\nWhen running skill scripts: cd <skill-path> && <command>\n\n",
    )
}

/// The names of the skills as a JSON array.
pub open spec fn names_json(skills: Seq<SkillView>) -> JsonView {
    JsonView::Array(skills.map_values(|skill: SkillView| JsonView::Text(skill.name)))
}

/// The names of the skills as the text of a JSON array, indented.
pub fn skill_names_text(skills: &[SkillMeta]) -> (r: Option<String>)
    ensures
        option_text(r) == json_as_pretty_text(names_json(skills_view(skills@))),
{
    let ghost views = skills_view(skills@);
    let mut items: Vec<Json> = Vec::new();
    let mut i: usize = 0;
    while i < skills.len()
        invariant
            views == skills_view(skills@),
            i <= skills@.len(),
            items@.len() == i,
            forall|k: int| 0 <= k < i ==> #[trigger] items@[k]@ == JsonView::Text(views[k].name),
        decreases skills@.len() - i,
    {
        items.push(Json::text(skills[i].name.as_str()));
        i += 1;
    }
    proof {
        lemma_array_view(items);
        assert(items_view(items@) =~= views.map_values(
            |skill: SkillView| JsonView::Text(skill.name),
        ));
    }
    Json::Array(items).to_pretty_text()
}

/// Where a skill is looked for: below one of these directories.
#[derive(Debug, Clone, Copy, PartialEq, Eq, Structural)]
pub enum SkillBase {
    /// The user's home directory.
    Home,
    /// The directory of the skills that all work shares.
    Global,
    /// The directory that the agent works in.
    Workdir,
    /// The directory of the topic.
    Topic,
}

/// The directories that skills are looked for in, those that count most last.
/// Skills that were made for another assistant are found in its directory,
/// `assistant_dir`.
pub open spec fn scan_order(
    has_home: bool,
    has_global: bool,
    assistant_dir: Seq<char>,
) -> Seq<(SkillBase, Seq<char>)> {
    (if has_home {
        seq![
            (SkillBase::Home, ".config/opencode/skills"@),
            (SkillBase::Home, assistant_dir + "/skills"@),
        ]
    } else {
        Seq::empty()
    }) + (if has_global {
        seq![(SkillBase::Global, Seq::empty())]
    } else {
        Seq::empty()
    }) + seq![
        (SkillBase::Workdir, "skills"@),
        (SkillBase::Topic, "repo/"@ + assistant_dir + "/skills"@),
        (SkillBase::Topic, "repo/.opencode/skills"@),
        (SkillBase::Topic, "repo/.jyc/skills"@),
        (SkillBase::Topic, assistant_dir + "/skills"@),
        (SkillBase::Topic, ".opencode/skills"@),
        (SkillBase::Topic, ".jyc/skills"@),
    ]
}

/// What a list of directories holds.
pub open spec fn bases_view(dirs: Seq<(SkillBase, String)>) -> Seq<(SkillBase, Seq<char>)> {
    dirs.map_values(|dir: (SkillBase, String)| (dir.0, dir.1@))
}

/// The directories that skills are looked for in, those that count most last.
pub fn skill_dirs(has_home: bool, has_global: bool, assistant_dir: &str) -> (r: Vec<
    (SkillBase, String),
>)
    ensures
        bases_view(r@) == scan_order(has_home, has_global, assistant_dir@),
{
    let mut dirs: Vec<(SkillBase, String)> = Vec::new();
    if has_home {
        dirs.push((SkillBase::Home, ".config/opencode/skills".to_owned()));
        dirs.push((SkillBase::Home, assistant_dir.to_owned().concat("/skills")));
    }
    if has_global {
        dirs.push((SkillBase::Global, String::new()));
    }
    dirs.push((SkillBase::Workdir, "skills".to_owned()));
    dirs.push(
        (SkillBase::Topic, "repo/".to_owned().concat(assistant_dir).concat("/skills")),
    );
    dirs.push((SkillBase::Topic, "repo/.opencode/skills".to_owned()));
    dirs.push((SkillBase::Topic, "repo/.jyc/skills".to_owned()));
    dirs.push((SkillBase::Topic, assistant_dir.to_owned().concat("/skills")));
    dirs.push((SkillBase::Topic, ".opencode/skills".to_owned()));
    dirs.push((SkillBase::Topic, ".jyc/skills".to_owned()));
    assert(bases_view(dirs@) =~= scan_order(has_home, has_global, assistant_dir@));
    dirs
}

/// Whether the skills stand in the order of their names, none of which comes
/// twice.
pub open spec fn in_name_order(skills: Seq<SkillView>) -> bool {
    forall|i: int, j: int|
        0 <= i < j < skills.len() ==> text_before(
            (#[trigger] skills[i]).name,
            (#[trigger] skills[j]).name,
        )
}

proof fn lemma_with_skill_holds(skills: Seq<SkillView>, skill: SkillView)
    ensures
        with_skill(skills, skill).contains(skill),
        forall|other: SkillView|
            skills.contains(other) && other.name != skill.name ==> #[trigger] with_skill(
                skills,
                skill,
            ).contains(other),
        forall|k: int|
            0 <= k < with_skill(skills, skill).len() ==> #[trigger] with_skill(skills, skill)[k]
                == skill || skills.contains(with_skill(skills, skill)[k]),
    decreases skills.len(),
{
    let r = with_skill(skills, skill);
    if skills.len() == 0 {
        assert(r[0] == skill);
    } else {
        let rest = skills.drop_first();
        assert forall|other: SkillView| skills.contains(other) && other != skills[0] implies rest.contains(
            other,
        ) by {
            let i = choose|i: int| 0 <= i < skills.len() && skills[i] == other;
            assert(rest[i - 1] == other);
        }
        assert forall|other: SkillView| rest.contains(other) implies skills.contains(other) by {
            let i = choose|i: int| 0 <= i < rest.len() && rest[i] == other;
            assert(skills[i + 1] == other);
        }
        if text_before(skills[0].name, skill.name) {
            lemma_with_skill_holds(rest, skill);
            let tail = with_skill(rest, skill);
            let at = choose|i: int| 0 <= i < tail.len() && tail[i] == skill;
            assert(r[at + 1] == skill);
            assert forall|other: SkillView|
                skills.contains(other) && other.name != skill.name implies #[trigger] r.contains(
                other,
            ) by {
                if other == skills[0] {
                    assert(r[0] == other);
                } else {
                    assert(rest.contains(other));
                    assert(with_skill(rest, skill).contains(other));
                    let i = choose|i: int| 0 <= i < tail.len() && tail[i] == other;
                    assert(r[i + 1] == other);
                }
            }
            assert forall|k: int| 0 <= k < r.len() implies #[trigger] r[k] == skill
                || skills.contains(r[k]) by {
                if k == 0 {
                    assert(r[0] == skills[0]);
                } else {
                    assert(r[k] == tail[k - 1]);
                }
            }
        } else if skills[0].name == skill.name {
            assert(r[0] == skill);
            assert forall|other: SkillView|
                skills.contains(other) && other.name != skill.name implies #[trigger] r.contains(
                other,
            ) by {
                let i = choose|i: int| 0 <= i < skills.len() && skills[i] == other;
                assert(r[i] == other);
            }
            assert forall|k: int| 0 <= k < r.len() implies #[trigger] r[k] == skill
                || skills.contains(r[k]) by {
                if k > 0 {
                    assert(r[k] == skills[k]);
                }
            }
        } else {
            assert(r[0] == skill);
            assert forall|other: SkillView|
                skills.contains(other) && other.name != skill.name implies #[trigger] r.contains(
                other,
            ) by {
                let i = choose|i: int| 0 <= i < skills.len() && skills[i] == other;
                assert(r[i + 1] == other);
            }
            assert forall|k: int| 0 <= k < r.len() implies #[trigger] r[k] == skill
                || skills.contains(r[k]) by {
                if k > 0 {
                    assert(r[k] == skills[k - 1]);
                }
            }
        }
    }
}

proof fn lemma_with_skill_in_order(skills: Seq<SkillView>, skill: SkillView)
    requires
        in_name_order(skills),
    ensures
        in_name_order(with_skill(skills, skill)),
    decreases skills.len(),
{
    let r = with_skill(skills, skill);
    if skills.len() > 0 {
        let rest = skills.drop_first();
        assert(in_name_order(rest)) by {
            assert forall|i: int, j: int| 0 <= i < j < rest.len() implies text_before(
                (#[trigger] rest[i]).name,
                (#[trigger] rest[j]).name,
            ) by {
                assert(rest[i] == skills[i + 1]);
                assert(rest[j] == skills[j + 1]);
            }
        }
        let first = skills[0];
        if text_before(first.name, skill.name) {
            lemma_with_skill_in_order(rest, skill);
            lemma_with_skill_holds(rest, skill);
            let tail = with_skill(rest, skill);
            assert forall|i: int, j: int| 0 <= i < j < r.len() implies text_before(
                (#[trigger] r[i]).name,
                (#[trigger] r[j]).name,
            ) by {
                assert(r[j] == tail[j - 1]);
                if i == 0 {
                    if tail[j - 1] != skill {
                        let k = choose|k: int| 0 <= k < rest.len() && rest[k] == tail[j - 1];
                        assert(skills[k + 1] == tail[j - 1]);
                    }
                } else {
                    assert(r[i] == tail[i - 1]);
                }
            }
        } else {
            lemma_before_total(first.name, skill.name);
            assert forall|i: int, j: int| 0 <= i < j < r.len() implies text_before(
                (#[trigger] r[i]).name,
                (#[trigger] r[j]).name,
            ) by {
                if first.name == skill.name {
                    assert(r[j] == skills[j]);
                    if i > 0 {
                        assert(r[i] == skills[i]);
                    }
                } else {
                    assert(r[j] == skills[j - 1]);
                    if i > 0 {
                        assert(r[i] == skills[i - 1]);
                    } else if j > 1 {
                        lemma_before_trans(skill.name, first.name, skills[j - 1].name);
                    }
                }
            }
        }
    }
}

/// The skills stand in the order of their names, and no name comes twice.
pub proof fn law_skills_are_in_order(found: Seq<SkillView>)
    ensures
        in_name_order(merged(found)),
    decreases found.len(),
{
    if found.len() > 0 {
        law_skills_are_in_order(found.drop_last());
        lemma_with_skill_in_order(merged(found.drop_last()), found.last());
    }
}

/// Of the skills of one name, the one that was found last is kept.
pub proof fn law_found_last_counts(found: Seq<SkillView>, i: int)
    requires
        0 <= i < found.len(),
        forall|j: int| i < j < found.len() ==> (#[trigger] found[j]).name != found[i].name,
    ensures
        merged(found).contains(found[i]),
    decreases found.len(),
{
    let before = found.drop_last();
    lemma_with_skill_holds(merged(before), found.last());
    if i < found.len() - 1 {
        assert(before[i] == found[i]);
        assert forall|j: int| i < j < before.len() implies (#[trigger] before[j]).name
            != before[i].name by {
            assert(before[j] == found[j]);
        }
        law_found_last_counts(before, i);
        assert(found[found.len() - 1].name != found[i].name);
    }
}

/// Nothing is kept that was not found.
pub proof fn law_only_found_skills(found: Seq<SkillView>, k: int)
    requires
        0 <= k < merged(found).len(),
    ensures
        found.contains(merged(found)[k]),
    decreases found.len(),
{
    if found.len() > 0 {
        let before = found.drop_last();
        lemma_with_skill_holds(merged(before), found.last());
        let skill = merged(found)[k];
        if skill == found.last() {
            assert(found[found.len() - 1] == skill);
        } else {
            let m = choose|m: int| 0 <= m < merged(before).len() && merged(before)[m] == skill;
            law_only_found_skills(before, m);
            let i = choose|i: int| 0 <= i < before.len() && before[i] == skill;
            assert(found[i] == skill);
        }
    }
}

/// A skill that is not wanted is not offered.
pub proof fn law_unwanted_is_not_offered(
    found: Seq<SkillView>,
    wanted: Option<Seq<Seq<char>>>,
    unwanted: Option<Seq<Seq<char>>>,
    k: int,
)
    requires
        0 <= k < offered(found, wanted, unwanted).len(),
    ensures
        is_offered(offered(found, wanted, unwanted)[k].name, wanted, unwanted),
{
    merged(found).lemma_filter_pred(
        |skill: SkillView| is_offered(skill.name, wanted, unwanted),
        k,
    );
}

/// What a line says behind a word that it begins with, `n` characters long.
pub open spec fn said_behind(line: Seq<char>, n: int) -> Seq<char> {
    trim(after(trim(line), n))
}

/// Whether a line says the name.
pub open spec fn says_name(line: Seq<char>) -> bool {
    begins(trim(line), "name:"@)
}

/// Whether a line says a description.
pub open spec fn says_description(line: Seq<char>) -> bool {
    !says_name(line) && begins(trim(line), "description:"@) && said_behind(line, 12).len() > 0
}

/// Whether a line says that the description follows in lines of its own.
pub open spec fn opens_block(line: Seq<char>) -> bool {
    says_description(line) && (said_behind(line, 12) == "|"@ || said_behind(line, 12) == "|-"@
        || said_behind(line, 12) == ">"@)
}

proof fn lemma_plain_line(all: Seq<Seq<char>>, i: int, head: Head)
    requires
        0 <= i < all.len(),
        !opens_block(all[i]),
    ensures
        read_line(all, i, head) == (
            Head {
                name: if says_name(all[i]) {
                    Some(said_behind(all[i], 5))
                } else {
                    head.name
                },
                description: if says_description(all[i]) {
                    Some(said_behind(all[i], 12))
                } else {
                    head.description
                },
            },
            i + 1,
        ),
{
    reveal_strlit("|");
    reveal_strlit("|-");
    reveal_strlit(">");
    assert(is_block_sign(said_behind(all[i], 12)) ==> said_behind(all[i], 12).len() > 0);
}

proof fn lemma_plain_head(all: Seq<Seq<char>>, i: int, end: int, n: int, d: int, head: Head)
    requires
        0 <= i <= end <= all.len(),
        forall|k: int| i <= k < end ==> !is_mark(#[trigger] all[k]) && !opens_block(all[k]),
        n < end,
        d < end,
        i <= n ==> says_name(all[n]),
        i <= d ==> says_description(all[d]),
        forall|k: int| i <= k < end && n < k ==> !says_name(#[trigger] all[k]),
        forall|k: int| i <= k < end && d < k ==> !says_description(#[trigger] all[k]),
    ensures
        head_from(all, i, head) == head_from(
            all,
            end,
            Head {
                name: if i <= n {
                    Some(said_behind(all[n], 5))
                } else {
                    head.name
                },
                description: if i <= d {
                    Some(said_behind(all[d], 12))
                } else {
                    head.description
                },
            },
        ),
    decreases end - i,
{
    if i < end {
        lemma_plain_line(all, i, head);
        assert(!is_mark(all[i]));
        let next = read_line(all, i, head).0;
        lemma_plain_head(all, i + 1, end, n, d, next);
    }
}

/// What the file says of a skill is what the last line of its head that begins
/// with the word for the name says behind that word, and what the last one for
/// the description says, where that says anything; each without the white space
/// around it.
pub proof fn law_head_says_name_and_description(content: Seq<char>, end: int, n: int, d: int)
    requires
        1 <= end <= lines(content).len(),
        trim(lines(content)[0]) == "---"@,
        end < lines(content).len() ==> trim(lines(content)[end]) == "---"@,
        1 <= n < end,
        1 <= d < end,
        says_name(lines(content)[n]),
        says_description(lines(content)[d]),
        forall|k: int|
            1 <= k < end ==> trim(#[trigger] lines(content)[k]) != "---"@ && !opens_block(
                lines(content)[k],
            ),
        forall|k: int| n < k < end ==> !says_name(#[trigger] lines(content)[k]),
        forall|k: int| d < k < end ==> !says_description(#[trigger] lines(content)[k]),
    ensures
        said_behind(lines(content)[n], 5).len() > 0 ==> skill_head(content) == Some(
            SkillView {
                name: said_behind(lines(content)[n], 5),
                description: said_behind(lines(content)[d], 12),
                source_path: Seq::empty(),
            },
        ),
        said_behind(lines(content)[n], 5).len() == 0 ==> skill_head(content) is None,
{
    lemma_plain_head(
        lines(content),
        1,
        end,
        n,
        d,
        Head { name: None, description: None },
    );
}

/// A file tells of a skill only where it begins with the mark and says both the
/// name and the description in lines of its head.
pub proof fn law_head_must_say_both(content: Seq<char>)
    ensures
        lines(content).len() == 0 ==> skill_head(content) is None,
        lines(content).len() > 0 && trim(lines(content)[0]) != "---"@ ==> skill_head(content) is None,
        (forall|k: int| 1 <= k < lines(content).len() ==> !says_name(#[trigger] lines(content)[k]))
            ==> skill_head(content) is None,
        (forall|k: int|
            1 <= k < lines(content).len() ==> !says_description(#[trigger] lines(content)[k]))
            ==> skill_head(content) is None,
{
    let all = lines(content);
    let blank = Head { name: None, description: None };
    if forall|k: int| 1 <= k < all.len() ==> !says_name(#[trigger] all[k]) {
        lemma_nameless(all, 1, blank);
    }
    if forall|k: int| 1 <= k < all.len() ==> !says_description(#[trigger] all[k]) {
        lemma_undescribed(all, 1, blank);
    }
}

proof fn lemma_nameless(all: Seq<Seq<char>>, i: int, head: Head)
    requires
        0 <= i,
        head.name is None,
        forall|k: int| i <= k < all.len() ==> !says_name(#[trigger] all[k]),
    ensures
        head_from(all, i, head).name is None,
    decreases all.len() - i,
{
    if i < all.len() && !is_mark(all[i]) {
        lemma_block_end(all, i + 1);
        assert(!says_name(all[i]));
        let next = read_line(all, i, head);
        lemma_nameless(all, next.1, next.0);
    }
}

proof fn lemma_undescribed(all: Seq<Seq<char>>, i: int, head: Head)
    requires
        0 <= i,
        head.description is None,
        forall|k: int| i <= k < all.len() ==> !says_description(#[trigger] all[k]),
    ensures
        head_from(all, i, head).description is None,
    decreases all.len() - i,
{
    if i < all.len() && !is_mark(all[i]) {
        assert(!says_description(all[i]));
        lemma_plain_line(all, i, head);
        lemma_undescribed(all, i + 1, read_line(all, i, head).0);
    }
}

proof fn lemma_block_ends_there(all: Seq<Seq<char>>, i: int, end: int)
    requires
        0 <= i <= end <= all.len(),
        forall|k: int| i <= k < end ==> !is_mark(#[trigger] all[k]) && !is_flush(all[k]),
        end < all.len() ==> is_mark(all[end]) || is_flush(all[end]),
    ensures
        block_end(all, i) == end,
    decreases end - i,
{
    if i < end {
        assert(!is_mark(all[i]));
        lemma_block_ends_there(all, i + 1, end);
    }
}

proof fn lemma_filled_lines(all: Seq<Seq<char>>)
    ensures
        filled_lines(all) == all.map_values(|line: Seq<char>| trim(line)).filter(
            |line: Seq<char>| line.len() > 0,
        ),
    decreases all.len(),
{
    reveal(Seq::filter);
    let cut = |line: Seq<char>| trim(line);
    let filled = |line: Seq<char>| line.len() > 0;
    if all.len() > 0 {
        lemma_filled_lines(all.drop_last());
        assert(all.map_values(cut).drop_last() =~= all.drop_last().map_values(cut));
        assert(all.map_values(cut).last() == trim(all.last()));
    } else {
        assert(filled_lines(all) =~= all.map_values(cut).filter(filled));
    }
}

/// A description in lines of its own is all the indented lines behind its sign,
/// without the white space around each and without those that say nothing, put
/// together with spaces.
pub proof fn law_description_in_lines_of_its_own(content: Seq<char>, n: int, d: int, end: int)
    requires
        1 <= n < d < end <= lines(content).len(),
        trim(lines(content)[0]) == "---"@,
        end < lines(content).len() ==> trim(lines(content)[end]) == "---"@,
        says_name(lines(content)[n]),
        said_behind(lines(content)[n], 5).len() > 0,
        opens_block(lines(content)[d]),
        forall|k: int|
            1 <= k < d ==> trim(#[trigger] lines(content)[k]) != "---"@ && !says_description(
                lines(content)[k],
            ),
        trim(lines(content)[d]) != "---"@,
        forall|k: int| n < k < d ==> !says_name(#[trigger] lines(content)[k]),
        forall|k: int|
            d < k < end ==> trim(#[trigger] lines(content)[k]) != "---"@ && (lines(content)[k].len() == 0 || is_white(
                lines(content)[k][0],
            )),
    ensures
        ({
            let kept = lines(content).subrange(d + 1, end).map_values(
                |line: Seq<char>| trim(line),
            ).filter(|line: Seq<char>| line.len() > 0);
            joined(kept, " "@).len() > 0 ==> skill_head(content) == Some(
                SkillView {
                    name: said_behind(lines(content)[n], 5),
                    description: joined(kept, " "@),
                    source_path: Seq::empty(),
                },
            )
        }),
{
    let all = lines(content);
    let blank = Head { name: None, description: None };
    lemma_plain_head(all, 1, d, n, 0, blank);
    lemma_block_ends_there(all, d + 1, end);
    lemma_filled_lines(all.subrange(d + 1, end));
    let head = Head { name: Some(said_behind(all[n], 5)), description: None };
    let next = read_line(all, d, head);
    assert(next.1 == end);
    assert(head_from(all, d, head) == head_from(all, end, next.0));
    assert(head_from(all, end, next.0) == next.0);
}

/// A skill that was found, and is the last of its name, is offered where it may
/// be: where it is on the list of the wanted, if there is one, and not on the
/// list of the unwanted.
pub proof fn law_what_may_be_offered_is(
    found: Seq<SkillView>,
    wanted: Option<Seq<Seq<char>>>,
    unwanted: Option<Seq<Seq<char>>>,
    i: int,
)
    requires
        0 <= i < found.len(),
        forall|j: int| i < j < found.len() ==> (#[trigger] found[j]).name != found[i].name,
    ensures
        offered(found, wanted, unwanted).contains(found[i]) <==> (wanted is None
            || wanted->0.contains(found[i].name)) && (unwanted is None || !unwanted->0.contains(
            found[i].name,
        )),
{
    let may = |skill: SkillView| is_offered(skill.name, wanted, unwanted);
    law_found_last_counts(found, i);
    let all = merged(found);
    let k = choose|k: int| 0 <= k < all.len() && all[k] == found[i];
    if may(all[k]) {
        all.lemma_filter_contains(may, k);
    } else if all.filter(may).contains(found[i]) {
        let m = choose|m: int| 0 <= m < all.filter(may).len() && all.filter(may)[m] == found[i];
        all.lemma_filter_pred(may, m);
    }
}

/// A prompt tells of every skill, in order: its name, where it is, and what it
/// is for.
pub proof fn law_every_skill_is_told(skills: Seq<SkillView>)
    ensures
        skill_entries(skills) == skills.map_values(
            |skill: SkillView|
                "- **"@ + skill.name + "** (at "@ + skill.source_path + ")\n  "@
                    + skill.description + "\n\n"@,
        ).flatten_alt(),
        skills.len() > 0 ==> exists|at: int|
            crate::text::occurs_at(skills_section(skills), skill_entries(skills), at),
        skills.len() == 0 ==> skills_section(skills) == Seq::<char>::empty(),
    decreases skills.len(),
{
    let told = |skill: SkillView|
        "- **"@ + skill.name + "** (at "@ + skill.source_path + ")\n  "@ + skill.description
            + "\n\n"@;
    if skills.len() > 0 {
        law_every_skill_is_told(skills.drop_last());
        let parts = skills.map_values(told);
        assert(parts.drop_last() =~= skills.drop_last().map_values(told));
        assert(parts.last() == told(skills.last()));
        assert(parts.flatten_alt() == parts.drop_last().flatten_alt() + parts.last());
        let section = skills_section(skills);
        let entries = skill_entries(skills);
        let at = ("## Available Skills\n\n"@
            + "**IMPORTANT: Before processing any user request, you MUST read the relevant SKILL.md file(s) using the `read <skill-path>/SKILL.md` tool. The descriptions below are summaries only and do NOT contain the full instructions you need to follow.**\n\n"@).len() as int;
        assert(section.subrange(at, at + entries.len()) =~= entries);
        assert(crate::text::occurs_at(section, entries, at));
    }
}

/// The names are written down one for one.
pub proof fn law_names_are_written_down(skills: Seq<SkillView>, i: int)
    requires
        0 <= i < skills.len(),
    ensures
        match names_json(skills) {
            JsonView::Array(items) => items.len() == skills.len() && items[i] == JsonView::Text(
                skills[i].name,
            ),
            _ => false,
        },
{
}

/// How far from the topic a directory is.
pub open spec fn nearness(base: SkillBase) -> int {
    match base {
        SkillBase::Home => 0,
        SkillBase::Global => 1,
        SkillBase::Workdir => 2,
        SkillBase::Topic => 3,
    }
}

/// Skills are looked for at home first, if there is a home, then in the shared
/// directory, if there is one, then where the agent works, then in the topic:
/// the nearer a directory, the later, so that it counts more. The directory of
/// this program in the topic counts most, and what stands in a repository of the
/// topic counts less than what stands in the topic itself.
pub proof fn law_nearer_directories_count_more(
    has_home: bool,
    has_global: bool,
    assistant_dir: Seq<char>,
)
    ensures
        ({
            let dirs = scan_order(has_home, has_global, assistant_dir);
            &&& dirs.last() == (SkillBase::Topic, ".jyc/skills"@)
            &&& forall|i: int, j: int|
                0 <= i < j < dirs.len() ==> nearness((#[trigger] dirs[i]).0) <= nearness(
                    (#[trigger] dirs[j]).0,
                )
            &&& has_home <==> exists|i: int| 0 <= i < dirs.len() && (#[trigger] dirs[i]).0 == SkillBase::Home
            &&& has_global <==> exists|i: int| 0 <= i < dirs.len() && (#[trigger] dirs[i]).0 == SkillBase::Global
            &&& has_home ==> dirs.contains((SkillBase::Home, assistant_dir + "/skills"@))
            &&& has_home ==> dirs.contains((SkillBase::Home, ".config/opencode/skills"@))
            &&& dirs.contains((SkillBase::Workdir, "skills"@))
            &&& dirs[dirs.len() - 2] == (SkillBase::Topic, ".opencode/skills"@)
            &&& dirs[dirs.len() - 3] == (SkillBase::Topic, assistant_dir + "/skills"@)
            &&& dirs.contains((SkillBase::Topic, "repo/.jyc/skills"@))
            &&& dirs.contains((SkillBase::Topic, "repo/.opencode/skills"@))
            &&& dirs.contains((SkillBase::Topic, "repo/"@ + assistant_dir + "/skills"@))
        }),
{
    let dirs = scan_order(has_home, has_global, assistant_dir);
    let n = dirs.len();
    assert(dirs[n - 7] == (SkillBase::Workdir, "skills"@));
    assert(dirs[n - 6] == (SkillBase::Topic, "repo/"@ + assistant_dir + "/skills"@));
    assert(dirs[n - 5] == (SkillBase::Topic, "repo/.opencode/skills"@));
    assert(dirs[n - 4] == (SkillBase::Topic, "repo/.jyc/skills"@));
    if has_home {
        assert(dirs[0].0 == SkillBase::Home);
        assert(dirs[1] == (SkillBase::Home, assistant_dir + "/skills"@));
    }
    if has_global {
        assert(dirs[n - 8].0 == SkillBase::Global);
    }
}

/// A description in lines of its own ends at the next line that is not
/// indented, which is read like any other: a name that stands there counts.
pub proof fn law_head_goes_on_behind_its_description(content: Seq<char>, end: int)
    requires
        2 < end < lines(content).len(),
        trim(lines(content)[0]) == "---"@,
        opens_block(lines(content)[1]),
        trim(lines(content)[1]) != "---"@,
        forall|k: int|
            1 < k < end ==> trim(#[trigger] lines(content)[k]) != "---"@ && (
            lines(content)[k].len() == 0 || is_white(lines(content)[k][0])),
        lines(content)[end].len() > 0,
        !is_white(lines(content)[end][0]),
        trim(lines(content)[end]) != "---"@,
        says_name(lines(content)[end]),
        said_behind(lines(content)[end], 5).len() > 0,
        end + 1 < lines(content).len() ==> trim(lines(content)[end + 1]) == "---"@,
    ensures
        ({
            let kept = lines(content).subrange(2, end).map_values(
                |line: Seq<char>| trim(line),
            ).filter(|line: Seq<char>| line.len() > 0);
            joined(kept, " "@).len() > 0 ==> skill_head(content) == Some(
                SkillView {
                    name: said_behind(lines(content)[end], 5),
                    description: joined(kept, " "@),
                    source_path: Seq::empty(),
                },
            )
        }),
{
    let all = lines(content);
    let blank = Head { name: None, description: None };
    lemma_block_ends_there(all, 2, end);
    lemma_filled_lines(all.subrange(2, end));
    let next = read_line(all, 1, blank);
    assert(next.1 == end);
    assert(head_from(all, 1, blank) == head_from(all, end, next.0));
    let last = read_line(all, end, next.0);
    assert(head_from(all, end, next.0) == head_from(all, end + 1, last.0));
    assert(head_from(all, end + 1, last.0) == last.0);
}

} // verus!
