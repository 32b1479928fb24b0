//! The configuration document as a tree, and the edits and checks made on it.
//!
//! A document is read and written by the caller; the library sees it as a
//! [`YamlNode`] tree whose mappings keep their entries in order, each key at
//! most once. Leaves that the logic never looks into (numbers, booleans,
//! null, sequences) are carried as values of the parameter type `L`.
use vstd::prelude::*;

use crate::text::opt_view;
use crate::text::{concat3, decimal, owned, push_decimal, push_str, split, split_on, views};

verus! {

/// A node of a configuration document.
pub enum YamlNode<L> {
    /// A string.
    Str(String),
    /// A mapping: its entries, in document order.
    Mapping(Vec<(YamlNode<L>, YamlNode<L>)>),
    /// A node with an explicit tag.
    Tagged(String, Box<YamlNode<L>>),
    /// Any other node.
    Other(L),
}

/// An entry of a mapping.
pub type Entry<L> = (YamlNode<L>, YamlNode<L>);

/// Key `k` is the string `name`.
pub open spec fn key_is<L>(k: YamlNode<L>, name: Seq<char>) -> bool {
    match k {
        YamlNode::Str(s) => s@ == name,
        _ => false,
    }
}

/// Index of the first entry of `es` whose key is the string `name`, or -1.
pub open spec fn find_key<L>(es: Seq<Entry<L>>, name: Seq<char>) -> int
    decreases es.len(),
{
    if es.len() == 0 {
        -1
    } else {
        let r = find_key(es.drop_last(), name);
        if r >= 0 {
            r
        } else if key_is(es.last().0, name) {
            es.len() - 1
        } else {
            -1
        }
    }
}

/// `n` with its tags removed.
pub open spec fn untag<L>(n: YamlNode<L>) -> YamlNode<L>
    decreases n,
{
    match n {
        YamlNode::Tagged(_, b) => untag(*b),
        _ => n,
    }
}

/// The node at path `parts` below `n`, looking through tags.
pub open spec fn get_path<L>(n: YamlNode<L>, parts: Seq<Seq<char>>) -> Option<YamlNode<L>>
    decreases parts.len(), n,
{
    if parts.len() == 0 {
        Some(n)
    } else {
        match n {
            YamlNode::Tagged(_, b) => get_path(*b, parts),
            YamlNode::Mapping(es) => {
                let j = find_key(es@, parts[0]);
                if j < 0 {
                    None
                } else {
                    get_path(es@[j].1, parts.drop_first())
                }
            },
            _ => None,
        }
    }
}

/// Setting path `parts` below `n` succeeds: every node that the walk reaches
/// and descends from is a mapping. Missing keys on the way are created.
pub open spec fn set_ok<L>(n: YamlNode<L>, parts: Seq<Seq<char>>) -> bool
    decreases parts.len(), n,
{
    match n {
        YamlNode::Tagged(_, b) => set_ok(*b, parts),
        YamlNode::Mapping(es) => parts.len() <= 1 || {
            let j = find_key(es@, parts[0]);
            j < 0 || set_ok(es@[j].1, parts.drop_first())
        },
        _ => false,
    }
}

/// Index of the part at whose parent the walk meets a node that is not a mapping.
pub open spec fn blocked_at<L>(n: YamlNode<L>, parts: Seq<Seq<char>>) -> nat
    decreases parts.len(), n,
{
    match n {
        YamlNode::Tagged(_, b) => blocked_at(*b, parts),
        YamlNode::Mapping(es) => if parts.len() <= 1 {
            0
        } else {
            let j = find_key(es@, parts[0]);
            if j < 0 {
                0
            } else {
                1 + blocked_at(es@[j].1, parts.drop_first())
            }
        },
        _ => 0,
    }
}

/// `n` is a chain of new single-entry mappings along `parts`, ending in `value`.
pub open spec fn fresh_rel<L>(parts: Seq<Seq<char>>, value: YamlNode<L>, n: YamlNode<L>) -> bool
    decreases parts.len(),
{
    if parts.len() == 0 {
        n == value
    } else {
        match n {
            YamlNode::Mapping(es) => es@.len() == 1 && key_is(es@[0].0, parts[0]) && fresh_rel(
                parts.drop_first(),
                value,
                es@[0].1,
            ),
            _ => false,
        }
    }
}

/// `new` is `old` with `value` set at path `parts`, the way a mapping entry is
/// set: an existing key keeps its place and takes the new value; a missing key
/// is appended; tags on the way are kept.
pub open spec fn set_rel<L>(
    old: YamlNode<L>,
    parts: Seq<Seq<char>>,
    value: YamlNode<L>,
    new: YamlNode<L>,
) -> bool
    decreases parts.len(), old,
{
    if parts.len() == 0 {
        false
    } else {
        match old {
            YamlNode::Tagged(t, b) => match new {
                YamlNode::Tagged(t2, nb) => t2 == t && set_rel(*b, parts, value, *nb),
                _ => false,
            },
            YamlNode::Mapping(es) => match new {
                YamlNode::Mapping(nes) => {
                    let j = find_key(es@, parts[0]);
                    if j >= 0 {
                        &&& nes@.len() == es@.len()
                        &&& forall|k: int| 0 <= k < es@.len() && k != j ==> nes@[k] == es@[k]
                        &&& nes@[j].0 == es@[j].0
                        &&& if parts.len() == 1 {
                            nes@[j].1 == value
                        } else {
                            set_rel(es@[j].1, parts.drop_first(), value, nes@[j].1)
                        }
                    } else {
                        &&& nes@.len() == es@.len() + 1
                        &&& nes@.drop_last() == es@
                        &&& key_is(nes@.last().0, parts[0])
                        &&& fresh_rel(parts.drop_first(), value, nes@.last().1)
                    }
                },
                _ => false,
            },
            _ => false,
        }
    }
}

/// Why a configuration edit or check failed.
pub enum ConfigError {
    /// The parent of the last key part is not a mapping.
    CannotSet { key: String },
    /// A node on the way to the last key part is not a mapping.
    CannotNavigate { part: String },
    /// The document has problems; one message each.
    Invalid { issues: Vec<String> },
}

impl ConfigError {
    /// The error text that the console reports.
    pub fn message(&self) -> (r: String)
        ensures
            r@ == match self {
                ConfigError::CannotSet { key } => "Cannot set '"@ + key@
                    + "': parent is not a mapping"@,
                ConfigError::CannotNavigate { part } => "Cannot navigate to '"@ + part@
                    + "': parent is not a mapping"@,
                ConfigError::Invalid { issues } => "Configuration validation failed with "@
                    + decimal(issues.len() as nat) + " error(s)"@,
            },
    {
        match self {
            ConfigError::CannotSet { key } => concat3(
                "Cannot set '",
                key.as_str(),
                "': parent is not a mapping",
            ),
            ConfigError::CannotNavigate { part } => concat3(
                "Cannot navigate to '",
                part.as_str(),
                "': parent is not a mapping",
            ),
            ConfigError::Invalid { issues } => {
                let mut r = owned("Configuration validation failed with ");
                push_decimal(&mut r, issues.len() as u64);
                push_str(&mut r, " error(s)");
                r
            },
        }
    }
}

proof fn lemma_find_key_prefix<L>(es: Seq<Entry<L>>, m: int, name: Seq<char>)
    requires
        0 <= m <= es.len(),
        find_key(es.take(m), name) >= 0,
    ensures
        find_key(es, name) == find_key(es.take(m), name),
    decreases es.len() - m,
{
    if m < es.len() {
        assert(es.take(m + 1).drop_last() =~= es.take(m));
        lemma_find_key_prefix(es, m + 1, name);
    } else {
        assert(es.take(m) =~= es);
    }
}

proof fn lemma_find_key_bounds<L>(es: Seq<Entry<L>>, name: Seq<char>)
    ensures
        -1 <= find_key(es, name) < es.len(),
        find_key(es, name) >= 0 ==> key_is(es[find_key(es, name)].0, name),
        find_key(es, name) >= 0 ==> forall|k: int|
            0 <= k < find_key(es, name) ==> !key_is(#[trigger] es[k].0, name),
        find_key(es, name) < 0 ==> forall|k: int| 0 <= k < es.len() ==> !key_is(#[trigger] es[k].0, name),
    decreases es.len(),
{
    if es.len() > 0 {
        let d = es.drop_last();
        lemma_find_key_bounds(d, name);
        let f = find_key(es, name);
        if f >= 0 {
            assert forall|k: int| 0 <= k < f implies !key_is(#[trigger] es[k].0, name) by {
                assert(es[k] == d[k]);
            }
        } else {
            assert forall|k: int| 0 <= k < es.len() implies !key_is(#[trigger] es[k].0, name) by {
                if k < es.len() - 1 {
                    assert(es[k] == d[k]);
                }
            }
        }
    }
}

/// Entries with the same keys in the same places are searched alike.
proof fn lemma_find_key_same_keys<L>(a: Seq<Entry<L>>, b: Seq<Entry<L>>, name: Seq<char>)
    requires
        a.len() == b.len(),
        forall|k: int| 0 <= k < a.len() ==> #[trigger] a[k].0 == b[k].0,
    ensures
        find_key(a, name) == find_key(b, name),
    decreases a.len(),
{
    if a.len() > 0 {
        assert forall|k: int| 0 <= k < a.len() - 1 implies #[trigger] a.drop_last()[k].0
            == b.drop_last()[k].0 by {
            assert(a.drop_last()[k] == a[k]);
            assert(b.drop_last()[k] == b[k]);
        }
        lemma_find_key_same_keys(a.drop_last(), b.drop_last(), name);
        assert(a.last().0 == b.last().0);
    }
}

/// Index of the entry of `es` whose key is the string `name`.
fn find_entry<L>(es: &Vec<Entry<L>>, name: &String) -> (r: Option<usize>)
    ensures
        match r {
            Some(j) => j as int == find_key(es@, name@) && j < es.len(),
            None => find_key(es@, name@) == -1,
        },
{
    let mut i: usize = 0;
    while i < es.len()
        invariant
            i <= es.len(),
            find_key(es@.take(i as int), name@) == -1,
        decreases es.len() - i,
    {
        assert(es@.take(i + 1).drop_last() =~= es@.take(i as int));
        assert(es@.take(i + 1).last() == es@[i as int]);
        let hit = match &es[i].0 {
            YamlNode::Str(s) => *s == *name,
            _ => false,
        };
        if hit {
            proof {
                lemma_find_key_prefix(es@, i + 1, name@);
            }
            return Some(i);
        }
        i = i + 1;
    }
    assert(es@.take(i as int) =~= es@);
    None
}

/// `n` with its tags removed.
pub fn untagged<L>(n: &YamlNode<L>) -> (r: &YamlNode<L>)
    ensures
        *r == untag(*n),
    decreases n,
{
    match n {
        YamlNode::Tagged(_, b) => untagged(b),
        _ => n,
    }
}

/// Whether setting `parts[i..]` below `n` succeeds; if not, the index of the
/// part at whose parent it fails.
fn check_set<L>(n: &YamlNode<L>, parts: &Vec<String>, i: usize) -> (r: Option<usize>)
    requires
        i < parts.len(),
    ensures
        r is None <==> set_ok(*n, views(parts@).skip(i as int)),
        r matches Some(b) ==> b == i + blocked_at(*n, views(parts@).skip(i as int)) && b
            < parts.len(),
    decreases parts.len() - i, n,
{
    let ghost ps = views(parts@).skip(i as int);
    assert(ps[0] == parts@[i as int]@);
    assert(ps.drop_first() =~= views(parts@).skip(i + 1));
    match n {
        YamlNode::Tagged(_, b) => check_set(b, parts, i),
        YamlNode::Mapping(es) => {
            if i + 1 == parts.len() {
                None
            } else {
                match find_entry(es, &parts[i]) {
                    None => None,
                    Some(j) => check_set(&es[j].1, parts, i + 1),
                }
            }
        },
        _ => Some(i),
    }
}

/// A chain of new single-entry mappings along `parts[i..]`, ending in `value`.
fn fresh<L>(parts: &Vec<String>, i: usize, value: YamlNode<L>) -> (r: YamlNode<L>)
    requires
        i <= parts.len(),
    ensures
        fresh_rel(views(parts@).skip(i as int), value, r),
    decreases parts.len() - i,
{
    if i == parts.len() {
        assert(views(parts@).skip(i as int).len() == 0);
        value
    } else {
        let ghost ps = views(parts@).skip(i as int);
        assert(ps[0] == parts@[i as int]@);
        assert(ps.drop_first() =~= views(parts@).skip(i + 1));
        let child = fresh(parts, i + 1, value);
        let mut es: Vec<Entry<L>> = Vec::new();
        es.push((YamlNode::Str(parts[i].clone()), child));
        YamlNode::Mapping(es)
    }
}

/// `n` with `value` set at path `parts[i..]`.
fn apply_set<L>(n: YamlNode<L>, parts: &Vec<String>, i: usize, value: YamlNode<L>) -> (r:
    YamlNode<L>)
    requires
        i < parts.len(),
        set_ok(n, views(parts@).skip(i as int)),
    ensures
        set_rel(n, views(parts@).skip(i as int), value, r),
    decreases parts.len() - i, n,
{
    let ghost ps = views(parts@).skip(i as int);
    let ghost old_n = n;
    assert(ps[0] == parts@[i as int]@);
    assert(ps.drop_first() =~= views(parts@).skip(i + 1));
    match n {
        YamlNode::Tagged(t, b) => {
            let nb = apply_set(*b, parts, i, value);
            YamlNode::Tagged(t, Box::new(nb))
        },
        YamlNode::Mapping(es) => {
            let mut es = es;
            let ghost old_es = es@;
            match find_entry(&es, &parts[i]) {
                Some(j) => {
                    let (k, child) = es.remove(j);
                    let new_child = if i + 1 == parts.len() {
                        value
                    } else {
                        apply_set(child, parts, i + 1, value)
                    };
                    es.insert(j, (k, new_child));
                    assert(es@.len() == old_es.len());
                    assert forall|m: int| 0 <= m < old_es.len() && m != j implies es@[m]
                        == old_es[m] by {
                        if m < j {
                            assert(es@[m] == old_es.remove(j as int)[m]);
                        } else {
                            assert(es@[m] == old_es.remove(j as int)[m - 1]);
                        }
                    }
                    YamlNode::Mapping(es)
                },
                None => {
                    let child = if i + 1 == parts.len() {
                        assert(ps.drop_first().len() == 0);
                        value
                    } else {
                        fresh(parts, i + 1, value)
                    };
                    es.push((YamlNode::Str(parts[i].clone()), child));
                    assert(es@.drop_last() =~= old_es);
                    YamlNode::Mapping(es)
                },
            }
        },
        _ => {
            // `set_ok` holds of mappings and tagged nodes only.
            proof {
                assert(false);
            }
            n
        },
    }
}

/// The path named by a dotted key: its parts between the dots.
pub open spec fn key_path(key: Seq<char>) -> Seq<Seq<char>> {
    split_on(key, '.')
}

/// Sets `value` at the dotted `key` below `root`, creating missing mappings on
/// the way. Fails, leaving `root` unchanged, where the walk meets a node that
/// is not a mapping.
pub fn set_nested<L>(root: &mut YamlNode<L>, key: &str, value: YamlNode<L>) -> (r: Result<
    (),
    ConfigError,
>)
    ensures
        r is Ok <==> set_ok(*old(root), key_path(key@)),
        r is Ok ==> set_rel(*old(root), key_path(key@), value, *final(root)),
        r is Err ==> *final(root) == *old(root),
        r matches Err(e) ==> {
            let b = blocked_at(*old(root), key_path(key@));
            if b + 1 == key_path(key@).len() {
                e matches ConfigError::CannotSet { key: k } && k@ == key@
            } else {
                e matches ConfigError::CannotNavigate { part } && part@ == key_path(key@)[b as int]
            }
        },
{
    let parts = split(key, '.');
    assert(views(parts@).skip(0) =~= views(parts@));
    match check_set(root, &parts, 0) {
        Some(b) => {
            if b + 1 == parts.len() {
                Err(ConfigError::CannotSet { key: owned(key) })
            } else {
                Err(ConfigError::CannotNavigate { part: parts[b].clone() })
            }
        },
        None => {
            let mut cur: YamlNode<L> = YamlNode::Mapping(Vec::new());
            std::mem::swap(root, &mut cur);
            *root = apply_set(cur, &parts, 0, value);
            Ok(())
        },
    }
}

// ---------------------------------------------------------------------------
// Checks and lookups
// ---------------------------------------------------------------------------

/// The message for a missing required section.
pub open spec fn missing_section_message(name: Seq<char>) -> Seq<char> {
    "Missing required section: '"@ + name + "'"@
}

/// The sections every configuration needs, in the order they are checked.
pub open spec fn required_sections() -> Seq<Seq<char>> {
    seq!["kernel"@, "llm"@, "security"@]
}

/// The messages for the sections of `names` that mapping `es` lacks, in order.
pub open spec fn missing_messages<L>(es: Seq<Entry<L>>, names: Seq<Seq<char>>) -> Seq<Seq<char>>
    decreases names.len(),
{
    if names.len() == 0 {
        Seq::empty()
    } else {
        missing_messages(es, names.drop_last()) + if find_key(es, names.last()) < 0 {
            seq![missing_section_message(names.last())]
        } else {
            Seq::empty()
        }
    }
}

/// The problems of a configuration document, in the order they are found.
pub open spec fn config_issues_of<L>(root: YamlNode<L>) -> Seq<Seq<char>> {
    match untag(root) {
        YamlNode::Mapping(es) => missing_messages(es@, required_sections()),
        _ => seq!["Config root must be a YAML mapping"@],
    }
}

/// The problems of a configuration document: the root must be a mapping that
/// holds the sections `kernel`, `llm` and `security`.
pub fn config_issues<L>(root: &YamlNode<L>) -> (r: Vec<String>)
    ensures
        views(r@) == config_issues_of(*root),
{
    let mut r: Vec<String> = Vec::new();
    match untagged(root) {
        YamlNode::Mapping(es) => {
            let names = [owned("kernel"), owned("llm"), owned("security")];
            let ghost want = required_sections();
            proof {
                reveal_strlit("kernel");
                reveal_strlit("llm");
                reveal_strlit("security");
            }
            assert(names@.map_values(|s: String| s@) =~= want);
            let mut i: usize = 0;
            while i < 3
                invariant
                    i <= 3,
                    names@.len() == 3,
                    names@.map_values(|s: String| s@) == want,
                    views(r@) == missing_messages(es@, want.take(i as int)),
                decreases 3 - i,
            {
                assert(want.take(i + 1).drop_last() =~= want.take(i as int));
                assert(want.take(i + 1).last() == names@[i as int]@);
                if find_entry(es, &names[i]).is_none() {
                    let ghost before = r@;
                    r.push(concat3("Missing required section: '", names[i].as_str(), "'"));
                    assert(views(r@) =~= views(before) + seq![
                        missing_section_message(names@[i as int]@),
                    ]);
                } else {
                    assert(missing_messages(es@, want.take(i + 1)) =~= missing_messages(
                        es@,
                        want.take(i as int),
                    ));
                }
                i = i + 1;
            }
            assert(want.take(3) =~= want);
        },
        _ => {
            r.push(owned("Config root must be a YAML mapping"));
            assert(views(r@) =~= seq!["Config root must be a YAML mapping"@]);
        },
    }
    r
}

/// Checks a configuration document; fails with its problems if it has any.
pub fn validate_config<L>(root: &YamlNode<L>) -> (r: Result<(), ConfigError>)
    ensures
        r is Ok <==> config_issues_of(*root).len() == 0,
        r matches Err(e) ==> e matches ConfigError::Invalid { issues } && views(issues@)
            == config_issues_of(*root),
{
    let issues = config_issues(root);
    if issues.len() == 0 {
        Ok(())
    } else {
        Err(ConfigError::Invalid { issues })
    }
}

/// The string stored under key `name` of mapping `n`, looking through tags.
pub open spec fn lookup_str<L>(n: YamlNode<L>, name: Seq<char>) -> Option<Seq<char>> {
    match untag(n) {
        YamlNode::Mapping(es) => {
            let j = find_key(es@, name);
            if j < 0 {
                None
            } else {
                match untag(es@[j].1) {
                    YamlNode::Str(s) => Some(s@),
                    _ => None,
                }
            }
        },
        _ => None,
    }
}

/// The string stored under key `name` of mapping `n`, if there is one.
pub fn get_str<L>(n: &YamlNode<L>, name: &str) -> (r: Option<String>)
    ensures
        opt_view(r) == lookup_str(*n, name@),
{
    match untagged(n) {
        YamlNode::Mapping(es) => {
            let key = owned(name);
            match find_entry(es, &key) {
                None => None,
                Some(j) => {
                    proof {
                        lemma_find_key_bounds(es@, name@);
                    }
                    match untagged(&es[j].1) {
                        YamlNode::Str(s) => Some(s.clone()),
                        _ => None,
                    }
                },
            }
        },
        _ => None,
    }
}

// ---------------------------------------------------------------------------
// Laws of setting a key
// ---------------------------------------------------------------------------

/// Path `q` leaves path `parts` at some part: they agree up to a part where
/// both have one and the two differ.
pub open spec fn diverges(q: Seq<Seq<char>>, parts: Seq<Seq<char>>) -> bool
    decreases q.len(),
{
    q.len() > 0 && parts.len() > 0 && (q[0] != parts[0] || diverges(
        q.drop_first(),
        parts.drop_first(),
    ))
}

proof fn lemma_fresh_get<L>(parts: Seq<Seq<char>>, v: YamlNode<L>, n: YamlNode<L>)
    requires
        fresh_rel(parts, v, n),
    ensures
        get_path(n, parts) == Some(v),
    decreases parts.len(),
{
    if parts.len() > 0 {
        match n {
            YamlNode::Mapping(es) => {
                assert(es@.drop_last().len() == 0);
                assert(find_key(es@.drop_last(), parts[0]) == -1);
                assert(find_key(es@, parts[0]) == 0);
                lemma_fresh_get(parts.drop_first(), v, es@[0].1);
            },
            _ => {},
        }
    }
}

proof fn lemma_fresh_diverges<L>(parts: Seq<Seq<char>>, v: YamlNode<L>, n: YamlNode<L>, q: Seq<
    Seq<char>,
>)
    requires
        fresh_rel(parts, v, n),
        diverges(q, parts),
    ensures
        get_path(n, q) is None,
    decreases parts.len(),
{
    match n {
        YamlNode::Mapping(es) => {
            assert(es@.drop_last().len() == 0);
            assert(find_key(es@.drop_last(), q[0]) == -1);
            if q[0] == parts[0] {
                assert(find_key(es@, q[0]) == 0);
                lemma_fresh_diverges(parts.drop_first(), v, es@[0].1, q.drop_first());
            } else {
                assert(find_key(es@, q[0]) == -1);
            }
        },
        _ => {},
    }
}

/// After a key is set, reading the same key gives the value set.
pub proof fn law_set_then_get<L>(
    old: YamlNode<L>,
    parts: Seq<Seq<char>>,
    value: YamlNode<L>,
    new: YamlNode<L>,
)
    requires
        set_rel(old, parts, value, new),
    ensures
        get_path(new, parts) == Some(value),
    decreases parts.len(), old,
{
    match old {
        YamlNode::Tagged(_, b) => match new {
            YamlNode::Tagged(_, nb) => law_set_then_get(*b, parts, value, *nb),
            _ => {},
        },
        YamlNode::Mapping(es) => match new {
            YamlNode::Mapping(nes) => {
                let j = find_key(es@, parts[0]);
                lemma_find_key_bounds(es@, parts[0]);
                if j >= 0 {
                    lemma_find_key_same_keys(es@, nes@, parts[0]);
                    if parts.len() > 1 {
                        law_set_then_get(es@[j].1, parts.drop_first(), value, nes@[j].1);
                    } else {
                        assert(parts.drop_first().len() == 0);
                    }
                } else {
                    assert(find_key(nes@.drop_last(), parts[0]) == -1);
                    lemma_fresh_get(parts.drop_first(), value, nes@.last().1);
                }
            },
            _ => {},
        },
        _ => {},
    }
}

/// Setting a key leaves every path that leaves the key's path as it was.
pub proof fn law_set_keeps_other_paths<L>(
    old: YamlNode<L>,
    parts: Seq<Seq<char>>,
    value: YamlNode<L>,
    new: YamlNode<L>,
    q: Seq<Seq<char>>,
)
    requires
        set_rel(old, parts, value, new),
        diverges(q, parts),
    ensures
        get_path(new, q) == get_path(old, q),
    decreases parts.len(), old,
{
    match old {
        YamlNode::Tagged(_, b) => match new {
            YamlNode::Tagged(_, nb) => law_set_keeps_other_paths(*b, parts, value, *nb, q),
            _ => {},
        },
        YamlNode::Mapping(es) => match new {
            YamlNode::Mapping(nes) => {
                let j = find_key(es@, parts[0]);
                let m = find_key(es@, q[0]);
                lemma_find_key_bounds(es@, parts[0]);
                lemma_find_key_bounds(es@, q[0]);
                if j >= 0 {
                    lemma_find_key_same_keys(es@, nes@, q[0]);
                    if m >= 0 && m == j {
                        assert(q[0] == parts[0]);
                        if parts.len() > 1 {
                            law_set_keeps_other_paths(
                                es@[j].1,
                                parts.drop_first(),
                                value,
                                nes@[j].1,
                                q.drop_first(),
                            );
                        }
                    }
                } else {
                    assert(nes@.drop_last() == es@);
                    lemma_find_key_bounds(nes@, q[0]);
                    if m < 0 {
                        if key_is(nes@.last().0, q[0]) {
                            assert(q[0] == parts[0]);
                            assert(find_key(nes@, q[0]) == es@.len());
                            lemma_fresh_diverges(
                                parts.drop_first(),
                                value,
                                nes@.last().1,
                                q.drop_first(),
                            );
                        } else {
                            assert(find_key(nes@, q[0]) == -1);
                        }
                    } else {
                        assert(find_key(nes@, q[0]) == m);
                        assert(nes@[m] == es@[m]);
                    }
                }
            },
            _ => {},
        },
        _ => {},
    }
}

/// `a` and `b` are the same document: the same kind of node at every place,
/// with the same strings, tags, leaves and entries in the same order.
pub open spec fn same_tree<L>(a: YamlNode<L>, b: YamlNode<L>) -> bool
    decreases a,
{
    match a {
        YamlNode::Str(x) => match b {
            YamlNode::Str(y) => x@ == y@,
            _ => false,
        },
        YamlNode::Mapping(xs) => match b {
            YamlNode::Mapping(ys) => xs@.len() == ys@.len() && forall|k: int|
                0 <= k < xs@.len() ==> same_tree(#[trigger] xs@[k].0, ys@[k].0) && same_tree(
                    xs@[k].1,
                    ys@[k].1,
                ),
            _ => false,
        },
        YamlNode::Tagged(t, x) => match b {
            YamlNode::Tagged(u, y) => t@ == u@ && same_tree(*x, *y),
            _ => false,
        },
        YamlNode::Other(x) => match b {
            YamlNode::Other(y) => x == y,
            _ => false,
        },
    }
}

proof fn lemma_same_tree_refl<L>(a: YamlNode<L>)
    ensures
        same_tree(a, a),
    decreases a,
{
    match a {
        YamlNode::Mapping(xs) => {
            assert forall|k: int| 0 <= k < xs@.len() implies same_tree(#[trigger] xs@[k].0, xs@[k].0)
                && same_tree(xs@[k].1, xs@[k].1) by {
                lemma_same_tree_refl(xs@[k].0);
                lemma_same_tree_refl(xs@[k].1);
            }
        },
        YamlNode::Tagged(_, x) => lemma_same_tree_refl(*x),
        _ => {},
    }
}

/// Setting the value again at the end of a chain made for it changes nothing.
proof fn lemma_set_fresh_again<L>(
    parts: Seq<Seq<char>>,
    value: YamlNode<L>,
    n: YamlNode<L>,
    n2: YamlNode<L>,
)
    requires
        fresh_rel(parts, value, n),
        set_rel(n, parts, value, n2),
    ensures
        same_tree(n2, n),
    decreases parts.len(),
{
    match n {
        YamlNode::Mapping(es) => match n2 {
            YamlNode::Mapping(nes) => {
                assert(es@.drop_last().len() == 0);
                assert(find_key(es@.drop_last(), parts[0]) == -1);
                assert(find_key(es@, parts[0]) == 0);
                lemma_same_tree_refl(es@[0].0);
                if parts.len() == 1 {
                    lemma_same_tree_refl(value);
                } else {
                    lemma_set_fresh_again(parts.drop_first(), value, es@[0].1, nes@[0].1);
                }
                assert(same_tree(nes@[0].0, es@[0].0) && same_tree(nes@[0].1, es@[0].1));
            },
            _ => {},
        },
        _ => {},
    }
}

/// Setting a key to a value a second time gives the same document as setting
/// it once.
pub proof fn law_set_twice_same_as_once<L>(
    r0: YamlNode<L>,
    parts: Seq<Seq<char>>,
    value: YamlNode<L>,
    r1: YamlNode<L>,
    r2: YamlNode<L>,
)
    requires
        set_rel(r0, parts, value, r1),
        set_rel(r1, parts, value, r2),
    ensures
        same_tree(r2, r1),
    decreases parts.len(), r0,
{
    match r0 {
        YamlNode::Tagged(_, b) => match r1 {
            YamlNode::Tagged(_, nb1) => match r2 {
                YamlNode::Tagged(_, nb2) => {
                    law_set_twice_same_as_once(*b, parts, value, *nb1, *nb2);
                    assert(same_tree(*nb2, *nb1));
                },
                _ => {},
            },
            _ => {},
        },
        YamlNode::Mapping(es) => match r1 {
            YamlNode::Mapping(nes1) => match r2 {
                YamlNode::Mapping(nes2) => {
                    let j = find_key(es@, parts[0]);
                    lemma_find_key_bounds(es@, parts[0]);
                    let j1 = if j >= 0 {
                        lemma_find_key_same_keys(es@, nes1@, parts[0]);
                        j
                    } else {
                        assert(find_key(nes1@.drop_last(), parts[0]) == -1);
                        assert(find_key(nes1@, parts[0]) == es@.len());
                        es@.len() as int
                    };
                    assert(find_key(nes1@, parts[0]) == j1);
                    assert forall|k: int| 0 <= k < nes1@.len() && k != j1 implies same_tree(
                        #[trigger] nes2@[k].0,
                        nes1@[k].0,
                    ) && same_tree(nes2@[k].1, nes1@[k].1) by {
                        lemma_same_tree_refl(nes1@[k].0);
                        lemma_same_tree_refl(nes1@[k].1);
                    }
                    lemma_same_tree_refl(nes1@[j1].0);
                    if parts.len() == 1 {
                        lemma_same_tree_refl(value);
                        if j < 0 {
                            assert(parts.drop_first().len() == 0);
                        }
                    } else if j >= 0 {
                        law_set_twice_same_as_once(
                            es@[j].1,
                            parts.drop_first(),
                            value,
                            nes1@[j].1,
                            nes2@[j].1,
                        );
                    } else {
                        lemma_set_fresh_again(parts.drop_first(), value, nes1@[j1].1, nes2@[j1].1);
                    }
                    assert(same_tree(nes2@[j1].0, nes1@[j1].0) && same_tree(
                        nes2@[j1].1,
                        nes1@[j1].1,
                    ));
                    assert(nes2@.len() == nes1@.len());
                    assert forall|k: int| 0 <= k < nes2@.len() implies same_tree(
                        #[trigger] nes2@[k].0,
                        nes1@[k].0,
                    ) && same_tree(nes2@[k].1, nes1@[k].1) by {
                        if k != j1 {
                            assert(same_tree(nes2@[k].0, nes1@[k].0));
                        }
                    }
                },
                _ => {},
            },
            _ => {},
        },
        _ => {},
    }
}

/// Every string key of the mapping under `old` (through tags) is a key of the
/// mapping under `new`.
pub open spec fn keeps_keys<L>(old: YamlNode<L>, new: YamlNode<L>) -> bool {
    match untag(old) {
        YamlNode::Mapping(es) => match untag(new) {
            YamlNode::Mapping(nes) => forall|name: Seq<char>|
                find_key(es@, name) >= 0 ==> #[trigger] find_key(nes@, name) >= 0,
            _ => false,
        },
        _ => true,
    }
}

proof fn lemma_set_keeps_keys<L>(
    old: YamlNode<L>,
    parts: Seq<Seq<char>>,
    value: YamlNode<L>,
    new: YamlNode<L>,
)
    requires
        set_rel(old, parts, value, new),
    ensures
        keeps_keys(old, new),
    decreases parts.len(), old,
{
    match old {
        YamlNode::Tagged(_, b) => match new {
            YamlNode::Tagged(_, nb) => lemma_set_keeps_keys(*b, parts, value, *nb),
            _ => {},
        },
        YamlNode::Mapping(es) => match new {
            YamlNode::Mapping(nes) => {
                let j = find_key(es@, parts[0]);
                assert forall|name: Seq<char>| find_key(es@, name) >= 0 implies #[trigger] find_key(
                    nes@,
                    name,
                ) >= 0 by {
                    if j >= 0 {
                        lemma_find_key_same_keys(es@, nes@, name);
                    } else {
                        assert(nes@.drop_last() == es@);
                    }
                }
            },
            _ => {},
        },
        _ => {},
    }
}

proof fn lemma_missing_messages_empty<L>(es: Seq<Entry<L>>, names: Seq<Seq<char>>)
    ensures
        (missing_messages(es, names).len() == 0) == (forall|i: int|
            0 <= i < names.len() ==> find_key(es, #[trigger] names[i]) >= 0),
    decreases names.len(),
{
    if names.len() > 0 {
        let d = names.drop_last();
        lemma_missing_messages_empty(es, d);
        let all = forall|i: int| 0 <= i < names.len() ==> find_key(es, #[trigger] names[i]) >= 0;
        let all_d = forall|i: int| 0 <= i < d.len() ==> find_key(es, #[trigger] d[i]) >= 0;
        if all {
            assert forall|i: int| 0 <= i < d.len() implies find_key(es, #[trigger] d[i]) >= 0 by {
                assert(d[i] == names[i]);
            }
            assert(find_key(es, names[names.len() - 1]) >= 0);
        }
        if all_d && find_key(es, names.last()) >= 0 {
            assert forall|i: int| 0 <= i < names.len() implies find_key(es, #[trigger] names[i])
                >= 0 by {
                if i < names.len() - 1 {
                    assert(d[i] == names[i]);
                }
            }
        }
        if !all_d {
            let k = choose|k: int| 0 <= k < d.len() && find_key(es, d[k]) < 0;
            assert(d[k] == names[k]);
        }
    }
}

/// Setting a key never makes a configuration that passes the check fail it.
pub proof fn law_set_keeps_valid<L>(
    old: YamlNode<L>,
    parts: Seq<Seq<char>>,
    value: YamlNode<L>,
    new: YamlNode<L>,
)
    requires
        set_rel(old, parts, value, new),
        config_issues_of(old).len() == 0,
    ensures
        config_issues_of(new).len() == 0,
{
    lemma_set_keeps_keys(old, parts, value, new);
    match untag(old) {
        YamlNode::Mapping(es) => match untag(new) {
            YamlNode::Mapping(nes) => {
                lemma_missing_messages_empty(es@, required_sections());
                lemma_missing_messages_empty(nes@, required_sections());
                assert forall|i: int| 0 <= i < required_sections().len() implies find_key(
                    nes@,
                    #[trigger] required_sections()[i],
                ) >= 0 by {
                    assert(find_key(es@, required_sections()[i]) >= 0);
                }
            },
            _ => {},
        },
        _ => {},
    }
}

proof fn lemma_missing_listed<L>(es: Seq<Entry<L>>, names: Seq<Seq<char>>, i: int)
    requires
        0 <= i < names.len(),
        find_key(es, names[i]) < 0,
    ensures
        missing_messages(es, names).contains(missing_section_message(names[i])),
    decreases names.len(),
{
    let d = names.drop_last();
    let m = missing_messages(es, names);
    let a = missing_messages(es, d);
    if i == names.len() - 1 {
        assert(m[m.len() - 1] == missing_section_message(names[i]));
    } else {
        assert(d[i] == names[i]);
        lemma_missing_listed(es, d, i);
        let j = choose|j: int| 0 <= j < a.len() && a[j] == missing_section_message(d[i]);
        assert(m[j] == a[j]);
    }
}

/// A configuration passes the check exactly when its root is a mapping (through
/// tags) holding the sections `kernel`, `llm` and `security`; each of the three
/// that a mapping lacks is reported by name.
pub proof fn law_required_sections<L>(root: YamlNode<L>)
    ensures
        (config_issues_of(root).len() == 0) == match untag(root) {
            YamlNode::Mapping(es) => find_key(es@, "kernel"@) >= 0 && find_key(es@, "llm"@) >= 0
                && find_key(es@, "security"@) >= 0,
            _ => false,
        },
        untag(root) matches YamlNode::Mapping(es) && find_key(es@, "kernel"@) < 0
            ==> config_issues_of(root).contains("Missing required section: 'kernel'"@),
        untag(root) matches YamlNode::Mapping(es) && find_key(es@, "llm"@) < 0
            ==> config_issues_of(root).contains("Missing required section: 'llm'"@),
        untag(root) matches YamlNode::Mapping(es) && find_key(es@, "security"@) < 0
            ==> config_issues_of(root).contains("Missing required section: 'security'"@),
{
    reveal_strlit("Missing required section: '");
    reveal_strlit("'");
    reveal_strlit("kernel");
    reveal_strlit("llm");
    reveal_strlit("security");
    reveal_strlit("Missing required section: 'kernel'");
    reveal_strlit("Missing required section: 'llm'");
    reveal_strlit("Missing required section: 'security'");
    assert(missing_section_message("kernel"@) =~= "Missing required section: 'kernel'"@);
    assert(missing_section_message("llm"@) =~= "Missing required section: 'llm'"@);
    assert(missing_section_message("security"@) =~= "Missing required section: 'security'"@);
    let names = required_sections();
    match untag(root) {
        YamlNode::Mapping(es) => {
            lemma_missing_messages_empty(es@, names);
            if find_key(es@, "kernel"@) < 0 {
                lemma_missing_listed(es@, names, 0);
            }
            if find_key(es@, "llm"@) < 0 {
                lemma_missing_listed(es@, names, 1);
            }
            if find_key(es@, "security"@) < 0 {
                lemma_missing_listed(es@, names, 2);
            }
            if find_key(es@, "kernel"@) >= 0 && find_key(es@, "llm"@) >= 0 && find_key(
                es@,
                "security"@,
            ) >= 0 {
                assert forall|i: int| 0 <= i < names.len() implies find_key(
                    es@,
                    #[trigger] names[i],
                ) >= 0 by {}
            }
        },
        _ => {
            reveal_strlit("Config root must be a YAML mapping");
        },
    }
}

} // verus!
