//! Prompt templates: where they are found and how they describe themselves.
use vstd::prelude::*;

use crate::text::{
    chars_of, concat3, has_prefix, owned, push_str, skip_prefixes, split, split_on, starts_with,
    str_eq, string_from, strip_prefixes, trim, trimmed, views,
};

verus! {

/// The path of template `name` with extension `ext`: the file `<name>.<ext>`
/// joined to the `prompts` directory, which an absolute name replaces (as
/// `Path::join` does).
pub open spec fn prompt_path(name: Seq<char>, ext: Seq<char>) -> Seq<char> {
    let file = name + "."@ + ext;
    if name.len() > 0 && name[0] == '/' {
        file
    } else {
        "prompts/"@ + file
    }
}

/// The path of template `name` with extension `ext`.
pub fn prompt_file(name: &str, ext: &str) -> (r: String)
    ensures
        r@ == prompt_path(name@, ext@),
{
    let cs = chars_of(name);
    let mut r = if cs.len() > 0 && cs[0] == '/' {
        String::new()
    } else {
        owned("prompts/")
    };
    push_str(&mut r, name);
    push_str(&mut r, ".");
    push_str(&mut r, ext);
    proof {
        if !(cs@.len() > 0 && cs@[0] == '/') {
            assert(r@ =~= "prompts/"@ + (name@ + "."@ + ext@));
        } else {
            assert(r@ =~= name@ + "."@ + ext@);
        }
    }
    r
}

/// Why a template cannot be shown.
pub enum PromptError {
    /// No file of the template exists.
    NotFound { name: String },
}

impl PromptError {
    /// The error text that the console reports.
    pub fn message(&self) -> (r: String)
        ensures
            r@ == match self {
                PromptError::NotFound { name } => "Prompt template '"@ + name@
                    + "' not found in prompts/ directory."@,
            },
    {
        match self {
            PromptError::NotFound { name } => concat3(
                "Prompt template '",
                name.as_str(),
                "' not found in prompts/ directory.",
            ),
        }
    }
}

/// The file of template `name`, given which of its two candidate files exist:
/// `prompts/<name>.yaml` first, then `prompts/<name>.yml`.
pub fn find_prompt(name: &str, yaml_exists: bool, yml_exists: bool) -> (r: Result<
    String,
    PromptError,
>)
    ensures
        yaml_exists ==> (r matches Ok(p) && p@ == prompt_path(name@, "yaml"@)),
        !yaml_exists && yml_exists ==> (r matches Ok(p) && p@ == prompt_path(name@, "yml"@)),
        !yaml_exists && !yml_exists ==> (r matches Err(PromptError::NotFound { name: n }) && n@
            == name@),
{
    if yaml_exists {
        Ok(prompt_file(name, "yaml"))
    } else if yml_exists {
        Ok(prompt_file(name, "yml"))
    } else {
        Err(PromptError::NotFound { name: owned(name) })
    }
}

/// Index of the last `.` in `s`, or -1.
pub open spec fn last_dot(s: Seq<char>) -> int
    decreases s.len(),
{
    if s.len() == 0 {
        -1
    } else if s.last() == '.' {
        s.len() - 1
    } else {
        last_dot(s.drop_last())
    }
}

/// The template name of a file in the prompts directory: the file stem when
/// the extension (text after the last dot, which is not the first character)
/// is `yaml` or `yml`.
pub open spec fn template_name_of(file_name: Seq<char>) -> Option<Seq<char>> {
    let k = last_dot(file_name);
    if k > 0 {
        let ext = file_name.subrange(k + 1, file_name.len() as int);
        if ext == "yaml"@ || ext == "yml"@ {
            Some(file_name.subrange(0, k))
        } else {
            None
        }
    } else {
        None
    }
}

/// The template name of file `file_name`, if it is a template file.
pub fn template_name(file_name: &str) -> (r: Option<String>)
    ensures
        crate::text::opt_view(r) == template_name_of(file_name@),
{
    let cs = chars_of(file_name);
    let mut k = cs.len();
    assert(cs@.take(k as int) =~= cs@);
    while k > 0 && cs[k - 1] != '.'
        invariant
            k <= cs.len(),
            cs@ == file_name@,
            last_dot(cs@.take(k as int)) == last_dot(cs@),
        decreases k,
    {
        assert(cs@.take(k as int).drop_last() =~= cs@.take(k - 1));
        k = k - 1;
    }
    proof {
        if k > 0 {
            assert(cs@.take(k as int).last() == cs@[k - 1]);
        } else {
            assert(cs@.take(0).len() == 0);
        }
    }
    if k <= 1 {
        return None;
    }
    let dot = k - 1;
    let ext = string_from(&cs, dot + 1, cs.len());
    if str_eq(ext.as_str(), "yaml") || str_eq(ext.as_str(), "yml") {
        Some(string_from(&cs, 0, dot))
    } else {
        None
    }
}

/// The description a line gives: after trimming, a line that starts with
/// `description:` or `#` describes with the rest, leading copies of those
/// markers and surrounding white space removed, if anything is left.
pub open spec fn line_description(line: Seq<char>) -> Option<Seq<char>> {
    let t = trim(line);
    if has_prefix(t, "description:"@) || has_prefix(t, "#"@) {
        let d = trim(strip_prefixes(strip_prefixes(t, "description:"@), "#"@));
        if d.len() > 0 {
            Some(d)
        } else {
            None
        }
    } else {
        None
    }
}

/// The first description among `lines`.
pub open spec fn first_description(lines: Seq<Seq<char>>) -> Option<Seq<char>>
    decreases lines.len(),
{
    if lines.len() == 0 {
        None
    } else {
        match line_description(lines[0]) {
            Some(d) => Some(d),
            None => first_description(lines.drop_first()),
        }
    }
}

/// The description of a template file with `content`, read line by line.
/// (Splitting at `\n` alone gives the same result as `str::lines`: a `\r`
/// before the `\n` and a last empty line both vanish in the trimming.)
pub open spec fn description_of(content: Seq<char>) -> Option<Seq<char>> {
    first_description(split_on(content, '\n'))
}

fn line_desc(line: &str) -> (r: Option<String>)
    ensures
        crate::text::opt_view(r) == line_description(line@),
{
    let t = trimmed(line);
    if !(starts_with(t.as_str(), "description:") || starts_with(t.as_str(), "#")) {
        return None;
    }
    let tc = chars_of(t.as_str());
    let marker = chars_of("description:");
    let hash = chars_of("#");
    assert(tc@.subrange(0, tc@.len() as int) =~= tc@);
    let i1 = skip_prefixes(&tc, 0, &marker);
    let i2 = skip_prefixes(&tc, i1, &hash);
    let rest = string_from(&tc, i2, tc.len());
    let d = trimmed(rest.as_str());
    if d.as_str().is_empty() {
        None
    } else {
        Some(d)
    }
}

/// The description of a template file with `content`, if it has one.
pub fn description(content: &str) -> (r: Option<String>)
    ensures
        crate::text::opt_view(r) == description_of(content@),
{
    let lines = split(content, '\n');
    let ghost ls = views(lines@);
    let mut i: usize = 0;
    assert(ls.skip(0) =~= ls);
    while i < lines.len()
        invariant
            i <= lines.len(),
            ls == views(lines@),
            ls == split_on(content@, '\n'),
            first_description(ls.skip(i as int)) == first_description(ls),
        decreases lines.len() - i,
    {
        assert(ls.skip(i as int)[0] == lines@[i as int]@);
        assert(ls.skip(i as int).drop_first() =~= ls.skip(i + 1));
        match line_desc(lines[i].as_str()) {
            Some(d) => {
                return Some(d);
            },
            None => {},
        }
        i = i + 1;
    }
    assert(ls.skip(i as int).len() == 0);
    None
}

proof fn lemma_first_description_at(lines: Seq<Seq<char>>, k: int)
    requires
        0 <= k < lines.len(),
        line_description(lines[k]) is Some,
        forall|j: int| 0 <= j < k ==> line_description(#[trigger] lines[j]) is None,
    ensures
        first_description(lines) == line_description(lines[k]),
    decreases k,
{
    if k > 0 {
        let d = lines.drop_first();
        assert(line_description(lines[0]) is None);
        assert forall|j: int| 0 <= j < k - 1 implies line_description(#[trigger] d[j]) is None by {
            assert(d[j] == lines[j + 1]);
        }
        assert(d[k - 1] == lines[k]);
        lemma_first_description_at(d, k - 1);
    }
}

proof fn lemma_no_description(lines: Seq<Seq<char>>)
    requires
        forall|j: int| 0 <= j < lines.len() ==> line_description(#[trigger] lines[j]) is None,
    ensures
        first_description(lines) is None,
    decreases lines.len(),
{
    if lines.len() > 0 {
        let d = lines.drop_first();
        assert(line_description(lines[0]) is None);
        assert forall|j: int| 0 <= j < d.len() implies line_description(#[trigger] d[j]) is None by {
            assert(d[j] == lines[j + 1]);
        }
        lemma_no_description(d);
    }
}

/// The description of a file is that of its first describing line, wherever
/// in the file that line stands; a file with no describing line has none.
pub proof fn law_first_describing_line(content: Seq<char>, k: int)
    ensures
        ({
            let ls = split_on(content, '\n');
            &&& 0 <= k < ls.len() && line_description(ls[k]) is Some && (forall|j: int|
                0 <= j < k ==> line_description(#[trigger] ls[j]) is None) ==> description_of(content)
                == line_description(ls[k])
            &&& (forall|j: int| 0 <= j < ls.len() ==> line_description(#[trigger] ls[j]) is None)
                ==> description_of(content) is None
        }),
{
    let ls = split_on(content, '\n');
    if 0 <= k < ls.len() && line_description(ls[k]) is Some && (forall|j: int|
        0 <= j < k ==> line_description(#[trigger] ls[j]) is None) {
        lemma_first_description_at(ls, k);
    }
    if forall|j: int| 0 <= j < ls.len() ==> line_description(#[trigger] ls[j]) is None {
        lemma_no_description(ls);
    }
}

} // verus!
