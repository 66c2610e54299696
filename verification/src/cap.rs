//! Capability matching with `mata-cap` semantics, over borrowed strings.
//!
//! A capability is `component:action` or `component:action@scope`. A held
//! grant satisfies a need when component and action match and the grant is
//! either unscoped (covers every scope) or scoped to exactly the needed scope.

use vstd::prelude::*;

use crate::text::{bytes_of, bytes_eq, find_byte, skip_ascii, split_at_ascii};

verus! {

/// The byte `:` that ends the component.
pub const COLON: u8 = 0x3a;

/// The byte `@` that starts the scope.
pub const AT: u8 = 0x40;

/// A parsed capability string.
#[derive(Debug, Clone, Copy, PartialEq, Eq)]
pub struct Cap<'a> {
    /// The component, e.g. `camera`.
    pub component: &'a str,
    /// The action, e.g. `snapshot`.
    pub action: &'a str,
    /// Optional scope, e.g. `front-door`.
    pub scope: Option<&'a str>,
}

/// A capability as bytes: what [`Cap`] means.
pub struct CapView {
    pub component: Seq<u8>,
    pub action: Seq<u8>,
    pub scope: Option<Seq<u8>>,
}

impl<'a> View for Cap<'a> {
    type V = CapView;

    open spec fn view(&self) -> CapView {
        CapView {
            component: bytes_of(self.component),
            action: bytes_of(self.action),
            scope: match self.scope {
                Some(s) => Some(bytes_of(s)),
                None => None,
            },
        }
    }
}

/// A part is clean when it is non-empty and holds neither separator.
pub open spec fn clean(p: Seq<u8>) -> bool {
    p.len() > 0 && forall|i: int| 0 <= i < p.len() ==> p[i] != COLON && p[i] != AT
}

/// Every part of the capability is clean.
pub open spec fn well_formed(c: CapView) -> bool {
    &&& clean(c.component)
    &&& clean(c.action)
    &&& (c.scope matches Some(s) ==> clean(s))
}

/// The text of a capability: `component ":" action [ "@" scope ]`.
pub open spec fn cap_text(c: CapView) -> Seq<u8> {
    c.component + seq![COLON] + c.action + match c.scope {
        Some(s) => seq![AT] + s,
        None => Seq::<u8>::empty(),
    }
}

/// `b` is the text of some well-formed capability.
pub open spec fn is_cap_text(b: Seq<u8>) -> bool {
    exists|c: CapView| well_formed(c) && cap_text(c) == b
}

/// The capability that `b` spells, if it spells one (it spells at most one,
/// see [`lemma_cap_text_unique`]).
pub open spec fn parse_cap(b: Seq<u8>) -> Option<CapView> {
    if is_cap_text(b) {
        Some(choose|c: CapView| well_formed(c) && cap_text(c) == b)
    } else {
        None
    }
}

/// A held grant satisfies a need: same component and action, and the grant
/// is unscoped or has exactly the needed scope.
pub open spec fn cap_satisfies(grant: CapView, needed: CapView) -> bool {
    &&& grant.component == needed.component
    &&& grant.action == needed.action
    &&& (grant.scope is None || grant.scope == needed.scope)
}

/// The grant string satisfies the needed string; unparsable strings never
/// satisfy anything.
pub open spec fn text_satisfies(grant: Seq<u8>, needed: Seq<u8>) -> bool {
    match (parse_cap(grant), parse_cap(needed)) {
        (Some(g), Some(n)) => cap_satisfies(g, n),
        _ => false,
    }
}

proof fn lemma_first_sep(p: Seq<u8>, tail: Seq<u8>, x: u8, i: int)
    requires
        clean(p),
        x == COLON || x == AT,
        0 <= i <= p.len(),
        i < (p + seq![x] + tail).len(),
        (p + seq![x] + tail)[i] == x,
        forall|j: int| 0 <= j < i ==> (p + seq![x] + tail)[j] != x,
    ensures
        i == p.len(),
{
    if i < p.len() {
        assert((p + seq![x] + tail)[i] == p[i]);
    }
}

/// Two well-formed capabilities with the same text are the same.
pub proof fn lemma_cap_text_unique(c1: CapView, c2: CapView)
    requires
        well_formed(c1),
        well_formed(c2),
        cap_text(c1) == cap_text(c2),
    ensures
        c1 == c2,
{
    let t = cap_text(c1);
    let n1 = c1.component.len();
    let n2 = c2.component.len();
    assert(t[n1 as int] == COLON);
    assert(t[n2 as int] == COLON);
    if n1 < n2 {
        assert(t[n1 as int] == c2.component[n1 as int]);
    }
    if n2 < n1 {
        assert(t[n2 as int] == c1.component[n2 as int]);
    }
    assert(n1 == n2);
    assert(c1.component =~= t.subrange(0, n1 as int));
    assert(c2.component =~= t.subrange(0, n1 as int));
    let r1 = t.subrange(n1 as int + 1, t.len() as int);
    let a1 = c1.action.len();
    let a2 = c2.action.len();
    assert(r1 =~= c1.action + match c1.scope {
        Some(s) => seq![AT] + s,
        None => Seq::<u8>::empty(),
    });
    assert(r1 =~= c2.action + match c2.scope {
        Some(s) => seq![AT] + s,
        None => Seq::<u8>::empty(),
    });
    if a1 < a2 {
        assert(r1[a1 as int] == c2.action[a1 as int]);
        assert(c1.scope is Some);
        assert(r1[a1 as int] == AT);
    }
    if a2 < a1 {
        assert(r1[a2 as int] == c1.action[a2 as int]);
        assert(c2.scope is Some);
        assert(r1[a2 as int] == AT);
    }
    assert(a1 == a2);
    assert(c1.action =~= r1.subrange(0, a1 as int));
    assert(c2.action =~= r1.subrange(0, a1 as int));
    match (c1.scope, c2.scope) {
        (Some(s1), Some(s2)) => {
            assert(s1 =~= r1.subrange(a1 as int + 1, r1.len() as int));
            assert(s2 =~= r1.subrange(a1 as int + 1, r1.len() as int));
        },
        (None, None) => {},
        (Some(s1), None) => {
            assert(r1.len() == a1);
        },
        (None, Some(s2)) => {
            assert(r1.len() == a1);
        },
    }
}

/// Whether `b` is a clean part: non-empty, with neither separator.
fn is_clean(b: &[u8]) -> (r: bool)
    ensures
        r == clean(b@),
{
    if b.len() == 0 {
        return false;
    }
    let mut i: usize = 0;
    while i < b.len()
        invariant
            i <= b@.len(),
            forall|j: int| 0 <= j < i ==> b@[j] != COLON && b@[j] != AT,
        decreases b@.len() - i,
    {
        if b[i] == COLON || b[i] == AT {
            return false;
        }
        i += 1;
    }
    true
}

impl<'a> Cap<'a> {
    /// Parse `component:action[@scope]`. Every present part must be non-empty
    /// and must not contain another separator.
    pub fn parse(s: &'a str) -> (r: Option<Self>)
        ensures
            r is Some <==> is_cap_text(bytes_of(s)),
            r matches Some(c) ==> Some(c@) == parse_cap(bytes_of(s)) && well_formed(c@)
                && cap_text(c@) == bytes_of(s),
    {
        let b = s.as_bytes();
        let ghost t = bytes_of(s);
        let i = match find_byte(b, COLON) {
            Some(i) => i,
            None => {
                proof {
                    if is_cap_text(t) {
                        let c = choose|c: CapView| well_formed(c) && cap_text(c) == t;
                        assert(t[c.component.len() as int] == COLON);
                    }
                }
                return None;
            },
        };
        let (component, rest0) = split_at_ascii(s, i);
        let rest = skip_ascii(rest0);
        let ghost rb = bytes_of(rest);
        assert(rb =~= t.subrange(i + 1, t.len() as int));
        let (action, scope) = match find_byte(rest.as_bytes(), AT) {
            Some(j) => {
                let (a, sc0) = split_at_ascii(rest, j);
                let sc = skip_ascii(sc0);
                (a, Some(sc))
            },
            None => (rest, None),
        };
        let cap = Cap { component, action, scope };
        let ok = is_clean(component.as_bytes()) && is_clean(action.as_bytes()) && match scope {
            Some(sc) => is_clean(sc.as_bytes()),
            None => true,
        };
        proof {
            if ok {
                match scope {
                    Some(sc) => {
                        assert(cap_text(cap@) =~= t);
                    },
                    None => {
                        assert(cap_text(cap@) =~= t);
                    },
                }
                assert(is_cap_text(t));
                let c = choose|c: CapView| well_formed(c) && cap_text(c) == t;
                lemma_cap_text_unique(c, cap@);
            } else if is_cap_text(t) {
                let c = choose|c: CapView| well_formed(c) && cap_text(c) == t;
                let tail = cap_text(c).subrange(c.component.len() as int + 1, t.len() as int);
                assert(t =~= c.component + seq![COLON] + tail);
                lemma_first_sep(c.component, tail, COLON, i as int);
                assert(bytes_of(component) =~= c.component);
                let stail = match c.scope {
                    Some(sv) => sv,
                    None => Seq::<u8>::empty(),
                };
                assert(rb =~= tail);
                match c.scope {
                    Some(sv) => {
                        assert(rb =~= c.action + seq![AT] + sv);
                        match scope {
                            Some(sc) => {
                                let j = c.action.len();
                                assert(rb[j as int] == AT);
                                assert(bytes_of(action).len() <= j) by {
                                    if bytes_of(action).len() > j {
                                        assert(rb[j as int] != AT);
                                    }
                                }
                                lemma_first_sep(c.action, sv, AT, bytes_of(action).len() as int);
                                assert(bytes_of(action) =~= c.action);
                                assert(bytes_of(sc) =~= sv);
                            },
                            None => {
                                assert(rb[c.action.len() as int] == AT);
                            },
                        }
                    },
                    None => {
                        assert(rb =~= c.action);
                        match scope {
                            Some(sc) => {
                                assert(rb[bytes_of(action).len() as int] == AT);
                            },
                            None => {},
                        }
                    },
                }
                assert(false);
            }
        }
        if ok {
            Some(cap)
        } else {
            None
        }
    }

    /// Does this held grant satisfy `needed`?
    pub fn satisfies(&self, needed: &Cap<'_>) -> (r: bool)
        ensures
            r == cap_satisfies(self@, needed@),
    {
        let same_scope = match (self.scope, needed.scope) {
            (None, _) => true,
            (Some(g), Some(n)) => bytes_eq(g.as_bytes(), n.as_bytes()),
            (Some(_), None) => false,
        };
        bytes_eq(self.component.as_bytes(), needed.component.as_bytes()) && bytes_eq(
            self.action.as_bytes(),
            needed.action.as_bytes(),
        ) && same_scope
    }
}

/// Does the grant string satisfy the needed string? Unparsable strings never
/// satisfy anything.
pub fn grant_satisfies(grant: &str, needed: &str) -> (r: bool)
    ensures
        r == text_satisfies(bytes_of(grant), bytes_of(needed)),
{
    match (Cap::parse(grant), Cap::parse(needed)) {
        (Some(g), Some(n)) => g.satisfies(&n),
        _ => false,
    }
}

/// Does any grant in `grants` satisfy `needed`?
pub fn any_satisfies(grants: &[&str], needed: &str) -> (r: bool)
    ensures
        r == exists|i: int|
            0 <= i < grants@.len() && text_satisfies(bytes_of(#[trigger] grants@[i]), bytes_of(needed)),
{
    let n = match Cap::parse(needed) {
        Some(n) => n,
        None => return false,
    };
    let mut i: usize = 0;
    while i < grants.len()
        invariant
            i <= grants@.len(),
            Some(n@) == parse_cap(bytes_of(needed)),
            forall|j: int|
                0 <= j < i ==> !text_satisfies(bytes_of(#[trigger] grants@[j]), bytes_of(needed)),
        decreases grants@.len() - i,
    {
        if let Some(g) = Cap::parse(grants[i]) {
            if g.satisfies(&n) {
                return true;
            }
        }
        i += 1;
    }
    false
}

/// **A grant serves only its own component and action.** For any two
/// well-formed capabilities, the grant's text satisfies the need's text
/// only when both name the same component and the same action, and a
/// scoped grant only the same scope. An unscoped grant of a component and
/// action satisfies that component and action at every scope, and every
/// capability satisfies itself.
pub proof fn lemma_grant_matches_component_and_action(g: CapView, n: CapView)
    requires
        well_formed(g),
        well_formed(n),
    ensures
        text_satisfies(cap_text(g), cap_text(n)) ==> g.component == n.component && g.action
            == n.action,
        text_satisfies(cap_text(g), cap_text(n)) && g.scope is Some ==> g.scope == n.scope,
        g.component == n.component && g.action == n.action && g.scope is None ==> text_satisfies(
            cap_text(g),
            cap_text(n),
        ),
        text_satisfies(cap_text(g), cap_text(g)),
{
    lemma_parse_cap_text(g);
    lemma_parse_cap_text(n);
}

/// The text of a well-formed capability parses back to it.
proof fn lemma_parse_cap_text(c: CapView)
    requires
        well_formed(c),
    ensures
        parse_cap(cap_text(c)) == Some(c),
{
    assert(is_cap_text(cap_text(c)));
    let d = choose|d: CapView| well_formed(d) && cap_text(d) == cap_text(c);
    lemma_cap_text_unique(d, c);
}

} // verus!
