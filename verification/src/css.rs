//! The three declarations of a style sheet that the flattener reads, and
//! the cascade that it applies them with.

use vstd::prelude::*;
use crate::style::{Align, Style, BOLD_BIT, ITALIC_BIT};
use crate::text::{chars_of, texts};
use crate::xml::{str_eq, NodeKind, XmlNode, XmlTree};

verus! {

/// What one declaration adds to an element: a style or an alignment.
#[derive(Debug, Clone, Copy, PartialEq, Eq, Structural)]
pub enum CssAttribute {
    Style(Style),
    Align(Align),
}

/// One declaration of a rule: a property and its value.
#[derive(Debug)]
pub struct Declaration {
    pub name: String,
    pub value: String,
}

impl Declaration {
    /// The property and the value, as plain values.
    pub open spec fn pair(self) -> (Seq<char>, Seq<char>) {
        (self.name@, self.value@)
    }
}

/// The declarations of the rules that simplecss holds after it was fed
/// `sources` in order: for each rule, in the order in which simplecss
/// keeps the rules, the property and the value of each declaration.
pub uninterp spec fn sheet_declarations(sources: Seq<Seq<char>>) -> Seq<Seq<(Seq<char>, Seq<char>)>>;

/// The declarations of `rules`, as plain values.
pub open spec fn declaration_pairs(rules: Seq<Vec<Declaration>>) -> Seq<Seq<(Seq<char>, Seq<char>)>> {
    Seq::new(rules.len(), |i: int| Seq::new(rules[i]@.len(), |j: int| rules[i]@[j].pair()))
}

/// `simplecss::StyleSheet::new`, `parse_more` for each text in order,
/// and the field `rules` of what results, each rule with the name and
/// the value of its declarations. The rules are a function of the texts.
#[verifier::external_body]
fn sheet_rules(sources: &Vec<String>) -> (r: Vec<Vec<Declaration>>)
    ensures
        declaration_pairs(r@) == sheet_declarations(texts(sources@)),
{
    let mut sheet = simplecss::StyleSheet::new();
    for text in sources.iter() {
        sheet.parse_more(text);
    }
    sheet.rules.iter().map(
        |rule|
            rule.declarations.iter().map(
                |d| Declaration { name: d.name.to_owned(), value: d.value.to_owned() },
            ).collect(),
    ).collect()
}

/// The value of the decimal digit `c`.
pub open spec fn digit_value(c: char) -> Option<nat> {
    if '0' <= c <= '9' {
        Some((c as u32 - '0' as u32) as nat)
    } else {
        None
    }
}

/// The number that the decimal digits `s` write, where `s` holds digits
/// only and at least one.
pub open spec fn digits_value(s: Seq<char>) -> Option<nat>
    decreases s.len(),
{
    if s.len() == 0 {
        None
    } else {
        match digit_value(s.last()) {
            None => None,
            Some(d) => if s.len() == 1 {
                Some(d)
            } else {
                match digits_value(s.drop_last()) {
                    None => None,
                    Some(v) => Some(10 * v + d),
                }
            },
        }
    }
}

/// The number that `s` writes: decimal digits after an optional plus
/// sign, with a value that a `usize` holds.
pub open spec fn parse_number(s: Seq<char>) -> Option<nat> {
    let digits = if s.len() > 0 && s[0] == '+' {
        s.drop_first()
    } else {
        s
    };
    match digits_value(digits) {
        Some(v) => if v <= usize::MAX {
            Some(v)
        } else {
            None
        },
        None => None,
    }
}

/// More digits do not write a smaller number.
pub proof fn lemma_digits_grow(s: Seq<char>, k: int)
    requires
        1 <= k <= s.len(),
        digits_value(s) is Some,
    ensures
        digits_value(s.take(k)) is Some,
        digits_value(s.take(k))->0 <= digits_value(s)->0,
    decreases s.len() - k,
{
    if k == s.len() {
        assert(s.take(k) == s);
    } else {
        assert(s.drop_last().take(k) == s.take(k));
        lemma_digits_grow(s.drop_last(), k);
    }
}

/// Some digit of `s` before `k` is none, so `s` writes no number.
pub proof fn lemma_digits_fail(s: Seq<char>, k: int)
    requires
        1 <= k <= s.len(),
        digits_value(s.take(k)) is None,
    ensures
        digits_value(s) is None,
    decreases s.len() - k,
{
    if k == s.len() {
        assert(s.take(k) == s);
    } else {
        assert(s.drop_last().take(k) == s.take(k));
        lemma_digits_fail(s.drop_last(), k);
    }
}

/// Reads `s` as a number.
#[verifier::loop_isolation(false)]
pub fn parse_usize(s: &str) -> (r: Option<usize>)
    ensures
        r is Some == parse_number(s@) is Some,
        r matches Some(v) ==> v == parse_number(s@)->0,
{
    let chars = chars_of(s);
    let start: usize = if chars.len() > 0 && chars[0] == '+' {
        1
    } else {
        0
    };
    let ghost digits = if start == 1 {
        chars@.drop_first()
    } else {
        chars@
    };
    if start >= chars.len() {
        return None;
    }
    let mut acc: usize = 0;
    let mut i: usize = start;
    while i < chars.len()
        invariant
            start <= i <= chars.len(),
            start < chars.len(),
            digits == chars@.skip(start as int),
            i > start ==> digits_value(digits.take(i - start)) == Some(acc as nat),
            i == start ==> acc == 0,
        decreases chars.len() - i,
    {
        let c = chars[i];
        let ghost next = digits.take(i + 1 - start);
        proof {
            assert(next.last() == c);
            assert(next.drop_last() == digits.take(i - start));
        }
        if c < '0' || c > '9' {
            proof {
                assert(digits_value(next) is None);
                lemma_digits_fail(digits, i + 1 - start);
            }
            return None;
        }
        let d = (c as u32 - '0' as u32) as usize;
        if acc > (usize::MAX - d) / 10 {
            proof {
                assert(10 * acc + d > usize::MAX);
                if digits_value(digits) is Some {
                    lemma_digits_grow(digits, i + 1 - start);
                }
            }
            return None;
        }
        acc = 10 * acc + d;
        i += 1;
    }
    proof {
        assert(digits.take(chars.len() - start) == digits);
    }
    Some(acc)
}

/// `needle` stands somewhere in `hay`.
pub open spec fn has_substring(hay: Seq<char>, needle: Seq<char>) -> bool {
    exists|i: int| 0 <= i && i + needle.len() <= hay.len() && #[trigger] hay.subrange(i, i + needle.len()) == needle
}

/// Whether `needle` stands somewhere in `hay`.
pub fn contains_str(hay: &str, needle: &str) -> (r: bool)
    ensures
        r == has_substring(hay@, needle@),
{
    let h = chars_of(hay);
    let n = chars_of(needle);
    if n.len() > h.len() {
        return false;
    }
    let mut i: usize = 0;
    while i <= h.len() - n.len()
        invariant
            n.len() <= h.len(),
            i <= h.len() - n.len() + 1,
            h@ == hay@,
            n@ == needle@,
            forall|k: int| 0 <= k < i ==> #[trigger] h@.subrange(k, k + n.len()) != n@,
        decreases h.len() - n.len() + 1 - i,
    {
        let mut j: usize = 0;
        while j < n.len() && h[i + j] == n[j]
            invariant
                i + n.len() <= h.len(),
                j <= n.len(),
                forall|k: int| 0 <= k < j ==> h@[i + k] == n@[k],
            decreases n.len() - j,
        {
            j += 1;
        }
        if j == n.len() {
            proof {
                assert(h@.subrange(i as int, i + n.len()) == n@);
            }
            return true;
        }
        proof {
            assert(h@.subrange(i as int, i + n.len())[j as int] != n@[j as int]);
        }
        i += 1;
    }
    false
}

/// What the declaration `name: value` adds: italics for an italic or
/// oblique font style, bold for a bold or bolder font weight or one above
/// 400, the alignment for a text alignment (justified text counts as
/// left-aligned), and nothing for anything else.
pub open spec fn reduced(name: Seq<char>, value: Seq<char>) -> Option<CssAttribute> {
    if name == "font-style"@ {
        if value == "italic"@ || has_substring(value, "oblique"@) {
            Some(CssAttribute::Style(Style { bits: ITALIC_BIT }))
        } else {
            None
        }
    } else if name == "font-weight"@ {
        if value == "bold"@ || value == "bolder"@ || (parse_number(value) is Some && parse_number(value)->0 > 400) {
            Some(CssAttribute::Style(Style { bits: BOLD_BIT }))
        } else {
            None
        }
    } else if name == "text-align"@ {
        if value == "left"@ {
            Some(CssAttribute::Align(Align::Left))
        } else if value == "center"@ {
            Some(CssAttribute::Align(Align::Center))
        } else if value == "right"@ {
            Some(CssAttribute::Align(Align::Right))
        } else if value == "justify"@ {
            Some(CssAttribute::Align(Align::Left))
        } else {
            None
        }
    } else {
        None
    }
}

/// What one declaration adds, if anything.
pub fn reduce_declaration(name: &str, value: &str) -> (r: Option<CssAttribute>)
    ensures
        r == reduced(name@, value@),
{
    if str_eq(name, "font-style") {
        if str_eq(value, "italic") || contains_str(value, "oblique") {
            Some(CssAttribute::Style(Style::italic()))
        } else {
            None
        }
    } else if str_eq(name, "font-weight") {
        if str_eq(value, "bold") || str_eq(value, "bolder") {
            return Some(CssAttribute::Style(Style::bold()));
        }
        match parse_usize(value) {
            Some(weight) => if weight > 400 {
                Some(CssAttribute::Style(Style::bold()))
            } else {
                None
            },
            None => None,
        }
    } else if str_eq(name, "text-align") {
        if str_eq(value, "left") {
            Some(CssAttribute::Align(Align::Left))
        } else if str_eq(value, "center") {
            Some(CssAttribute::Align(Align::Center))
        } else if str_eq(value, "right") {
            Some(CssAttribute::Align(Align::Right))
        } else if str_eq(value, "justify") {
            Some(CssAttribute::Align(Align::Left))
        } else {
            None
        }
    } else {
        None
    }
}

/// What the declarations `decls` of rule `rule` add, in their order.
pub open spec fn reduced_rule(rule: usize, decls: Seq<(Seq<char>, Seq<char>)>) -> Seq<(usize, CssAttribute)>
    decreases decls.len(),
{
    if decls.len() == 0 {
        Seq::empty()
    } else {
        let before = reduced_rule(rule, decls.drop_last());
        match reduced(decls.last().0, decls.last().1) {
            Some(a) => before.push((rule, a)),
            None => before,
        }
    }
}

/// What the first `n` of `rules` add, each entry with the index of its
/// rule.
pub open spec fn reduced_rules(rules: Seq<Seq<(Seq<char>, Seq<char>)>>, n: int) -> Seq<(usize, CssAttribute)>
    decreases n,
{
    if n <= 0 || n > rules.len() {
        Seq::empty()
    } else {
        reduced_rules(rules, n - 1) + reduced_rule((n - 1) as usize, rules[n - 1])
    }
}

/// Reduces the declarations of all rules to what the flattener reads.
pub fn reduce_rules(rules: &Vec<Vec<Declaration>>) -> (r: Vec<(usize, CssAttribute)>)
    ensures
        r@ == reduced_rules(declaration_pairs(rules@), rules.len() as int),
{
    let mut out: Vec<(usize, CssAttribute)> = Vec::new();
    let ghost pairs = declaration_pairs(rules@);
    let mut i: usize = 0;
    while i < rules.len()
        invariant
            i <= rules.len(),
            pairs == declaration_pairs(rules@),
            out@ == reduced_rules(pairs, i as int),
        decreases rules.len() - i,
    {
        let decls = &rules[i];
        let ghost before = out@;
        let mut j: usize = 0;
        while j < decls.len()
            invariant
                j <= decls.len(),
                i < rules.len(),
                pairs == declaration_pairs(rules@),
                decls@ == rules@[i as int]@,
                out@ == before + reduced_rule(i, pairs[i as int].take(j as int)),
            decreases decls.len() - j,
        {
            proof {
                assert(pairs[i as int].take(j + 1).drop_last() == pairs[i as int].take(j as int));
                assert(pairs[i as int].take(j + 1).last() == decls@[j as int].pair());
            }
            match reduce_declaration(decls[j].name.as_str(), decls[j].value.as_str()) {
                Some(a) => {
                    out.push((i, a));
                },
                None => {},
            }
            j += 1;
        }
        proof {
            assert(pairs[i as int].take(decls.len() as int) == pairs[i as int]);
        }
        i += 1;
    }
    out
}

/// The reduced rules of the style sheets `sources`, parsed in order into
/// one sheet.
pub fn style_rules(sources: &Vec<String>) -> (r: Vec<(usize, CssAttribute)>)
    ensures
        r@ == reduced_rules(
            sheet_declarations(texts(sources@)),
            sheet_declarations(texts(sources@)).len() as int,
        ),
{
    let rules = sheet_rules(sources);
    reduce_rules(&rules)
}

/// Whether the selector of rule `rule` matches node `id`, by the table
/// `matched` of nodes and rules. Outside the table nothing matches.
pub open spec fn rule_matches(matched: Seq<Vec<bool>>, id: int, rule: int) -> bool {
    0 <= id < matched.len() && 0 <= rule < matched[id]@.len() && matched[id]@[rule]
}

/// The style and alignment after the rules that match node `id` were
/// applied in order: styles add up, the last alignment stands.
pub open spec fn apply_rules(
    rules: Seq<(usize, CssAttribute)>,
    matched: Seq<Vec<bool>>,
    id: int,
    style: u8,
    align: Option<Align>,
) -> (u8, Option<Align>)
    decreases rules.len(),
{
    if rules.len() == 0 {
        (style, align)
    } else {
        let before = apply_rules(rules.drop_last(), matched, id, style, align);
        if rule_matches(matched, id, rules.last().0 as int) {
            match rules.last().1 {
                CssAttribute::Style(s) => (before.0 | s.bits, before.1),
                CssAttribute::Align(a) => (before.0, Some(a)),
            }
        } else {
            before
        }
    }
}

/// The tag name of an element; empty for any other node.
pub open spec fn tag_of(node: XmlTree) -> Seq<char> {
    if node.kind == NodeKind::Element {
        node.name
    } else {
        Seq::empty()
    }
}

/// What the tag itself adds, after the rules: italics for `i` and `em`,
/// bold for `b` and `strong`, centring for `center`.
pub open spec fn tag_defaults(tag: Seq<char>, style: u8, align: Option<Align>) -> (u8, Option<Align>) {
    if tag == "i"@ || tag == "em"@ {
        (style | ITALIC_BIT, align)
    } else if tag == "b"@ || tag == "strong"@ {
        (style | BOLD_BIT, align)
    } else if tag == "center"@ {
        (style, Some(Align::Center))
    } else {
        (style, align)
    }
}

/// The style and alignment of `node` under the inherited `style` and
/// `align`.
pub open spec fn node_style(
    rules: Seq<(usize, CssAttribute)>,
    matched: Seq<Vec<bool>>,
    node: XmlTree,
    style: u8,
    align: Option<Align>,
) -> (u8, Option<Align>) {
    let cascaded = apply_rules(rules, matched, node.id as int, style, align);
    tag_defaults(tag_of(node), cascaded.0, cascaded.1)
}

/// The tag name of `node`, empty where it is no element.
pub fn tag_name(node: &XmlNode) -> (r: &str)
    ensures
        r@ == tag_of(node@),
{
    if node.is_element() {
        node.name.as_str()
    } else {
        proof {
            reveal_strlit("");
        }
        ""
    }
}

/// The style and alignment of `node` under the inherited `style` and
/// `align`: the matching rules in their order, then what the tag itself
/// adds.
pub fn update_style(
    rules: &Vec<(usize, CssAttribute)>,
    matched: &Vec<Vec<bool>>,
    node: &XmlNode,
    style: Style,
    align: Option<Align>,
) -> (r: (Style, Option<Align>))
    ensures
        (r.0.bits, r.1) == node_style(rules@, matched@, node@, style.bits, align),
{
    let mut style = style;
    let mut align = align;
    let ghost style0 = style.bits;
    let ghost align0 = align;
    let mut i: usize = 0;
    while i < rules.len()
        invariant
            i <= rules.len(),
            (style.bits, align) == apply_rules(rules@.take(i as int), matched@, node.id as int, style0, align0),
        decreases rules.len() - i,
    {
        proof {
            assert(rules@.take(i + 1).drop_last() == rules@.take(i as int));
        }
        let rule = rules[i].0;
        let hit = node.id < matched.len() && rule < matched[node.id].len() && matched[node.id][rule];
        if hit {
            match rules[i].1 {
                CssAttribute::Style(s) => {
                    style = style.union(s);
                },
                CssAttribute::Align(a) => {
                    align = Some(a);
                },
            }
        }
        i += 1;
    }
    proof {
        assert(rules@.take(rules.len() as int) == rules@);
    }
    let tag = tag_name(node);
    if str_eq(tag, "i") || str_eq(tag, "em") {
        style = style.union(Style::italic());
    } else if str_eq(tag, "b") || str_eq(tag, "strong") {
        style = style.union(Style::bold());
    } else if str_eq(tag, "center") {
        align = Some(Align::Center);
    }
    (style, align)
}

} // verus!
