//! Capsa names: agent namespaces, the default capsa and link files.
use vstd::prelude::*;
use crate::markdown::opt_view;
use crate::text::{
    chars_eq, chars_of, contains_chars, contains_seq, find_char, find_char_index, lines_of,
    slice_chars, split_lines, starts_with, starts_with_chars, string_of, trim, trim_chars, views,
};

verus! {

/// Settings that decide how capsa names resolve.
#[derive(Debug, Clone)]
pub struct ResolveContext {
    /// The base notes directory.
    pub home: String,
    /// Whether operations bypass the agent namespace.
    pub global: bool,
    /// The agent's name, if one is set.
    pub agent_name: Option<String>,
    /// An explicitly configured default capsa name.
    pub default_override: Option<String>,
    /// Whether output is JSON.
    pub json: bool,
}

/// A resolved capsa.
#[derive(Debug, Clone)]
pub struct CapsaRef {
    /// The (possibly hierarchical) name.
    pub name: String,
    /// Where it lives.
    pub path: String,
    /// Whether it is a link to an outside directory.
    pub is_link: bool,
    /// Whether it is a default capsa.
    pub is_default: bool,
}

/// An optional setting, with an empty text counting as unset.
pub open spec fn non_empty(o: Option<String>) -> Option<Seq<char>> {
    match o {
        Some(s) => if s@.len() > 0 {
            Some(s@)
        } else {
            None
        },
        None => None,
    }
}

/// The name of the default capsa: the configured one; else the agent's own
/// `agent/.` (not in global mode); else the shared `@shared/.`.
pub open spec fn default_name(ctx: ResolveContext) -> Seq<char> {
    match ctx.default_override {
        Some(n) => n@,
        None => match ctx.agent_name {
            Some(a) if !ctx.global => a@ + "/."@,
            _ => "@shared/."@,
        },
    }
}

/// A capsa name in the agent's namespace: unchanged in global mode, without
/// an agent, for `@` names and for names that already hold a `/`;
/// `.default` becomes `agent/.`; another name `agent/name`.
pub open spec fn namespaced(ctx: ResolveContext, name: Seq<char>) -> Seq<char> {
    if ctx.global || ctx.agent_name is None {
        name
    } else if starts_with(name, "@"@) || contains_seq(name, "/"@) {
        name
    } else if name == ".default"@ {
        ctx.agent_name->0@ + "/."@
    } else {
        ctx.agent_name->0@ + "/"@ + name
    }
}

/// The names to try, in order, when resolving `name`: for an `@` name the
/// name without it; with an agent (not in global mode) first `agent/name`
/// (`agent/.` for `.default`), then `name`; otherwise `name`.
pub open spec fn lookup_order(ctx: ResolveContext, name: Seq<char>) -> Seq<Seq<char>> {
    if starts_with(name, "@"@) {
        seq![name.skip(1)]
    } else if !ctx.global && ctx.agent_name is Some {
        let inner = if name == ".default"@ {
            "."@
        } else {
            name
        };
        seq![ctx.agent_name->0@ + "/"@ + inner, name]
    } else {
        seq![name]
    }
}

/// The part of `name` before its first `/` (all of it when there is none).
pub open spec fn first_segment(name: Seq<char>) -> Seq<char> {
    match find_char(name, '/') {
        Some(k) => name.take(k as int),
        None => name,
    }
}

/// Relies on `str::split`: the first piece of a split on `'/'` is the text
/// before the first `'/'`, or the whole text.
#[verifier::external_body]
fn before_first_slash(s: &str) -> (r: &str)
    ensures
        r@ == first_segment(s@),
{
    s.split('/').next().unwrap_or(s)
}

fn filter_empty(o: Option<String>) -> (r: Option<String>)
    ensures
        opt_view(r) == non_empty(o),
{
    match o {
        Some(s) => if s.as_str().is_empty() {
            None
        } else {
            Some(s)
        },
        None => None,
    }
}

fn eq_str(a: &str, b: &str) -> (r: bool)
    ensures
        r == (a@ == b@),
{
    let x = chars_of(a);
    let y = chars_of(b);
    chars_eq(x.as_slice(), y.as_slice())
}

fn starts_with_str(a: &str, p: &str) -> (r: bool)
    ensures
        r == starts_with(a@, p@),
{
    let x = chars_of(a);
    let y = chars_of(p);
    starts_with_chars(x.as_slice(), y.as_slice())
}

fn contains_str(a: &str, p: &str) -> (r: bool)
    ensures
        r == contains_seq(a@, p@),
{
    let x = chars_of(a);
    let y = chars_of(p);
    contains_chars(x.as_slice(), y.as_slice())
}

fn cat(a: &str, b: &str) -> (r: String)
    ensures
        r@ == a@ + b@,
{
    let mut r = a.to_owned();
    r.append(b);
    r
}

impl ResolveContext {
    /// A context from its settings; empty agent and default names count as
    /// unset.
    pub fn new(
        home: String,
        global: bool,
        json: bool,
        agent_name: Option<String>,
        default_override: Option<String>,
    ) -> (r: Self)
        ensures
            r.home == home,
            r.global == global,
            r.json == json,
            opt_view(r.agent_name) == non_empty(agent_name),
            opt_view(r.default_override) == non_empty(default_override),
    {
        ResolveContext {
            home,
            global,
            agent_name: filter_empty(agent_name),
            default_override: filter_empty(default_override),
            json,
        }
    }

    /// The name of the default capsa.
    pub fn default_capsa_name(&self) -> (r: String)
        ensures
            r@ == default_name(*self),
    {
        match &self.default_override {
            Some(name) => {
                return name.clone();
            },
            None => {},
        }
        if !self.global {
            match &self.agent_name {
                Some(agent) => {
                    return cat(agent.as_str(), "/.");
                },
                None => {},
            }
        }
        "@shared/.".to_owned()
    }

    /// A capsa name in the agent's namespace.
    pub fn apply_agent_namespace(&self, name: &str) -> (r: String)
        ensures
            r@ == namespaced(*self, name@),
    {
        if self.global || self.agent_name.is_none() {
            return name.to_owned();
        }
        if starts_with_str(name, "@") || contains_str(name, "/") {
            return name.to_owned();
        }
        let agent = self.agent_name.as_ref().unwrap();
        if eq_str(name, ".default") {
            return cat(agent.as_str(), "/.");
        }
        let with_slash = cat(agent.as_str(), "/");
        cat(with_slash.as_str(), name)
    }

    /// The names to try, in order, when resolving a capsa name.
    pub fn capsa_lookup_order(&self, name: &str) -> (r: Vec<String>)
        ensures
            crate::text::strs(r@) == lookup_order(*self, name@),
    {
        let mut out: Vec<String> = Vec::new();
        if starts_with_str(name, "@") {
            let cs = chars_of(name);
            proof {
                reveal_strlit("@");
            }
            let rest = slice_chars(cs.as_slice(), 1, cs.len());
            assert(rest@ =~= name@.skip(1));
            out.push(string_of(rest.as_slice()));
            assert(crate::text::strs(out@) =~= lookup_order(*self, name@));
            return out;
        }
        if !self.global && self.agent_name.is_some() {
            let agent = self.agent_name.as_ref().unwrap();
            let inner = if eq_str(name, ".default") {
                "."
            } else {
                name
            };
            let with_slash = cat(agent.as_str(), "/");
            out.push(cat(with_slash.as_str(), inner));
            out.push(name.to_owned());
            assert(crate::text::strs(out@) =~= lookup_order(*self, name@));
            return out;
        }
        out.push(name.to_owned());
        assert(crate::text::strs(out@) =~= lookup_order(*self, name@));
        out
    }

    /// Whether a name is hierarchical (holds a `/`).
    pub fn is_hierarchical(name: &str) -> (r: bool)
        ensures
            r == contains_seq(name@, "/"@),
    {
        contains_str(name, "/")
    }

    /// The agent of a hierarchical name: the part before the first `/`;
    /// `None` for `@` names and names without a `/`.
    pub fn extract_agent(name: &str) -> (r: Option<&str>)
        ensures
            match r {
                Some(a) => !starts_with(name@, "@"@) && contains_seq(name@, "/"@) && a@ == first_segment(
                    name@,
                ),
                None => starts_with(name@, "@"@) || !contains_seq(name@, "/"@),
            },
    {
        if starts_with_str(name, "@") {
            return None;
        }
        if !contains_str(name, "/") {
            return None;
        }
        Some(before_first_slash(name))
    }
}

/// Whether a resolved capsa is a default one: asked for as `.default`, or
/// named `.../.`.
pub open spec fn is_default_capsa(requested: Seq<char>, resolved: Seq<char>) -> bool {
    requested == ".default"@ || (resolved.len() >= 2 && resolved.skip(resolved.len() - 2) == "/."@)
}

/// A reference to a capsa found under `resolved` (asked for as `requested`).
pub fn capsa_ref(requested: &str, resolved: &str, path: String, is_link: bool) -> (r: CapsaRef)
    ensures
        r.name@ == resolved@,
        r.path == path,
        r.is_link == is_link,
        r.is_default == is_default_capsa(requested@, resolved@),
{
    let rc = chars_of(resolved);
    let tail = chars_of("/.");
    proof {
        reveal_strlit("/.");
    }
    let ends = rc.len() >= 2 && {
        let last = slice_chars(rc.as_slice(), rc.len() - 2, rc.len());
        assert(last@ =~= rc@.skip(rc@.len() - 2));
        chars_eq(last.as_slice(), tail.as_slice())
    };
    CapsaRef {
        name: resolved.to_owned(),
        path,
        is_link,
        is_default: eq_str(requested, ".default") || ends,
    }
}

/// The `target = ...` value of a link file line, when the line is one.
pub open spec fn link_target_of(line: Seq<char>) -> Option<Seq<char>> {
    let l = trim(line);
    if l.len() > 0 && l[0] == '[' && l.last() == ']' {
        None
    } else {
        match find_char(l, '=') {
            Some(e) => if trim(l.take(e as int)) == "target"@ {
                Some(trim(l.skip(e as int + 1)))
            } else {
                None
            },
            None => None,
        }
    }
}

/// The first `target` value among the lines.
pub open spec fn first_link_target(ls: Seq<Seq<char>>) -> Option<Seq<char>>
    decreases ls.len(),
{
    if ls.len() == 0 {
        None
    } else {
        match link_target_of(ls[0]) {
            Some(t) => Some(t),
            None => first_link_target(ls.skip(1)),
        }
    }
}

/// The target path of a link file (`[link]` then `target = /path`).
pub fn parse_link_content(content: &str) -> (r: Option<String>)
    ensures
        opt_view(r) == first_link_target(lines_of(content@)),
{
    let cs = chars_of(content);
    let ls = split_lines(cs.as_slice());
    let key = chars_of("target");
    let ghost all = views(ls@);
    let mut i: usize = 0;
    assert(all.skip(0) =~= all);
    while i < ls.len()
        invariant
            0 <= i <= ls.len(),
            all == views(ls@),
            all == lines_of(content@),
            key@ == "target"@,
            first_link_target(all) == first_link_target(all.skip(i as int)),
        decreases ls.len() - i,
    {
        assert(all.skip(i as int)[0] == ls[i as int]@);
        assert(all.skip(i as int).skip(1) =~= all.skip(i + 1));
        let l = trim_chars(ls[i].as_slice());
        let section = l.len() > 0 && l[0] == '[' && l[l.len() - 1] == ']';
        if !section {
            match find_char_index(l.as_slice(), '=') {
                Some(e) => {
                    let k = slice_chars(l.as_slice(), 0, e);
                    assert(k@ =~= l@.take(e as int));
                    let kt = trim_chars(k.as_slice());
                    if chars_eq(kt.as_slice(), key.as_slice()) {
                        let v = slice_chars(l.as_slice(), e + 1, l.len());
                        assert(v@ =~= l@.skip(e as int + 1));
                        let vt = trim_chars(v.as_slice());
                        return Some(string_of(vt.as_slice()));
                    }
                },
                None => {},
            }
        }
        i += 1;
    }
    None
}

} // verus!
