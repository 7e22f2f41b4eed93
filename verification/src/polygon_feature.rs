//! The polygon-feature rules: whether a closed way's tags mark it as an area
//! rather than a ring-shaped line.
//!
//! A tag of `area = no` blocks everything. Otherwise a single matching tag
//! suffices: tags under an always-rule match any value, an included-values
//! rule matches the listed values, an excluded-values rule matches every
//! value but the listed ones, and a value of `no` never matches. The result
//! is stated over the tag map alone, so the order the pairs are examined in
//! cannot affect it.
use vstd::prelude::*;

use crate::tags::lemma_pairs_map;
use crate::tags::Tags;

verus! {

/// A classification rule for one tag name.
pub enum Rule {
    /// `Boolean(true)`: any value but `no` makes the way an area.
    Boolean(bool),
    /// Only the included values, or all but the excluded values, make the
    /// way an area.
    Values { included: Option<Vec<&'static str>>, excluded: Option<Vec<&'static str>> },
}

/// Whether `v` occurs among the strings of `ss`.
pub open spec fn str_seq_contains(ss: Seq<&'static str>, v: Seq<char>) -> bool {
    exists|i: int| 0 <= i < ss.len() && (#[trigger] ss[i])@ == v
}

/// What a rule says of one value.
pub open spec fn rule_matches(rule: Rule, v: Seq<char>) -> bool {
    match rule {
        Rule::Boolean(b) => b,
        Rule::Values { included: Some(inc), excluded: _ } => str_seq_contains(inc@, v),
        Rule::Values { included: None, excluded: Some(exc) } => !str_seq_contains(exc@, v),
        Rule::Values { included: None, excluded: None } => false,
    }
}

/// The tag names whose rule is `Boolean(true)`.
pub open spec fn always_rule_tag(t: Seq<char>) -> bool {
    ||| t == "building"@
    ||| t == "landuse"@
    ||| t == "amenity"@
    ||| t == "leisure"@
    ||| t == "area"@
    ||| t == "boundary"@
    ||| t == "place"@
    ||| t == "shop"@
    ||| t == "tourism"@
    ||| t == "historic"@
    ||| t == "public_transportation"@
    ||| t == "office"@
    ||| t == "building:part"@
    ||| t == "military"@
    ||| t == "ruins"@
    ||| t == "area:highway"@
    ||| t == "craft"@
}

/// The included-values rules.
pub open spec fn included_rule_match(t: Seq<char>, v: Seq<char>) -> bool {
    ||| (t == "highway"@ && (v == "services"@ || v == "rest_area"@ || v == "escape"@))
    ||| (t == "waterway"@ && (v == "riverbank"@ || v == "dock"@ || v == "boatyard"@ || v
        == "dam"@))
    ||| (t == "barrier"@ && (v == "city_wall"@ || v == "ditch"@ || v == "hedge"@ || v
        == "retaining_wall"@ || v == "wall"@ || v == "spikes"@))
    ||| (t == "railway"@ && (v == "station"@ || v == "turntable"@ || v == "roundhouse"@ || v
        == "platform"@))
    ||| (t == "power"@ && (v == "generator"@ || v == "station"@ || v == "sub_station"@ || v
        == "transformer"@))
}

/// The excluded-values rules.
pub open spec fn excluded_rule_match(t: Seq<char>, v: Seq<char>) -> bool {
    ||| (t == "natural"@ && !(v == "coastline"@ || v == "ridge"@ || v == "arete"@ || v
        == "tree_row"@))
    ||| (t == "man_made"@ && !(v == "cutline"@ || v == "embankment"@ || v == "pipeline"@))
    ||| (t == "aeroway"@ && !(v == "taxiway"@))
}

/// Whether the rule table lets value `v` under tag name `t` mark an area.
pub open spec fn spec_rule_match(t: Seq<char>, v: Seq<char>) -> bool {
    always_rule_tag(t) || included_rule_match(t, v) || excluded_rule_match(t, v)
}

/// Whether the pair `(t, v)` makes the element a polygon feature: a value of
/// `no` never does, any other only as the rule table says.
pub open spec fn tag_matches(t: Seq<char>, v: Seq<char>) -> bool {
    v != "no"@ && spec_rule_match(t, v)
}

/// Whether tags `m` mark a closed way as an area: no `area = no`, and some
/// tag matching its rule.
pub open spec fn spec_is_polygon_feature(m: Map<Seq<char>, Seq<char>>) -> bool {
    if m.contains_key("area"@) && m["area"@] == "no"@ {
        false
    } else {
        exists|t: Seq<char>| #[trigger] m.contains_key(t) && tag_matches(t, m[t])
    }
}

/// String equality through the character sequences.
pub(crate) fn streq(a: &String, b: &str) -> (r: bool)
    ensures
        r == (a@ == b@),
{
    *a == b.to_owned()
}

/// The rule under tag name `tag`, reproducing the polygon-features table:
/// `None` when the table has no entry, otherwise a rule that matches exactly
/// the values the table matches.
pub fn polygon_feature_rule(tag: &String) -> (r: Option<Rule>)
    ensures
        match r {
            Some(rule) => forall|v: Seq<char>| #[trigger]
                rule_matches(rule, v) == spec_rule_match(tag@, v),
            None => forall|v: Seq<char>| !#[trigger] spec_rule_match(tag@, v),
        },
{
    proof {
        reveal_strlit("building");
        reveal_strlit("landuse");
        reveal_strlit("amenity");
        reveal_strlit("leisure");
        reveal_strlit("area");
        reveal_strlit("boundary");
        reveal_strlit("place");
        reveal_strlit("shop");
        reveal_strlit("tourism");
        reveal_strlit("historic");
        reveal_strlit("public_transportation");
        reveal_strlit("office");
        reveal_strlit("building:part");
        reveal_strlit("military");
        reveal_strlit("ruins");
        reveal_strlit("area:highway");
        reveal_strlit("craft");
        reveal_strlit("highway");
        reveal_strlit("waterway");
        reveal_strlit("barrier");
        reveal_strlit("railway");
        reveal_strlit("power");
        reveal_strlit("natural");
        reveal_strlit("man_made");
        reveal_strlit("aeroway");
        assert("aeroway"@[0] == 'a' && "building"@[0] == 'b' && "landuse"@[0] == 'l'
            && "amenity"@[0] == 'a' && "leisure"@[0] == 'l' && "area"@[0] == 'a'
            && "boundary"@[0] == 'b' && "place"@[0] == 'p' && "shop"@[0] == 's'
            && "tourism"@[0] == 't' && "historic"@[0] == 'h' && "public_transportation"@[0] == 'p'
            && "office"@[0] == 'o' && "building:part"@[0] == 'b' && "military"@[0] == 'm'
            && "ruins"@[0] == 'r' && "area:highway"@[0] == 'a' && "craft"@[0] == 'c'
            && "highway"@[0] == 'h' && "waterway"@[0] == 'w' && "barrier"@[0] == 'b'
            && "railway"@[0] == 'r' && "power"@[0] == 'p' && "natural"@[0] == 'n'
            && "man_made"@[0] == 'm');
        assert("amenity"@[1] == 'm' && "aeroway"@[1] == 'e' && "place"@[1] == 'l'
            && "power"@[1] == 'o');
    }
    if streq(tag, "building") || streq(tag, "landuse") || streq(tag, "amenity") || streq(
        tag,
        "leisure",
    ) || streq(tag, "area") || streq(tag, "boundary") || streq(tag, "place") || streq(tag, "shop")
        || streq(tag, "tourism") || streq(tag, "historic") || streq(tag, "public_transportation")
        || streq(tag, "office") || streq(tag, "building:part") || streq(tag, "military") || streq(
        tag,
        "ruins",
    ) || streq(tag, "area:highway") || streq(tag, "craft") {
        Some(Rule::Boolean(true))
    } else if streq(tag, "highway") {
        let inc = vec!["services", "rest_area", "escape"];
        proof {
            assert(inc@[0]@ == "services"@ && inc@[1]@ == "rest_area"@ && inc@[2]@ == "escape"@);
            assert forall|v: Seq<char>| #[trigger] str_seq_contains(inc@, v) == (v == "services"@ || v == "rest_area"@ || v == "escape"@) by {
                if v == "services"@ {
                    assert(inc@[0]@ == v);
                }
                if v == "rest_area"@ {
                    assert(inc@[1]@ == v);
                }
                if v == "escape"@ {
                    assert(inc@[2]@ == v);
                }
            }
        }
        Some(Rule::Values { included: Some(inc), excluded: None })
    } else if streq(tag, "waterway") {
        let inc = vec!["riverbank", "dock", "boatyard", "dam"];
        proof {
            assert(inc@[0]@ == "riverbank"@ && inc@[1]@ == "dock"@ && inc@[2]@ == "boatyard"@
                && inc@[3]@ == "dam"@);
            assert forall|v: Seq<char>| #[trigger] str_seq_contains(inc@, v) == (v == "riverbank"@ || v == "dock"@ || v == "boatyard"@ || v == "dam"@) by {
                if v == "riverbank"@ {
                    assert(inc@[0]@ == v);
                }
                if v == "dock"@ {
                    assert(inc@[1]@ == v);
                }
                if v == "boatyard"@ {
                    assert(inc@[2]@ == v);
                }
                if v == "dam"@ {
                    assert(inc@[3]@ == v);
                }
            }
        }
        Some(Rule::Values { included: Some(inc), excluded: None })
    } else if streq(tag, "barrier") {
        let inc = vec!["city_wall", "ditch", "hedge", "retaining_wall", "wall", "spikes"];
        proof {
            assert(inc@[0]@ == "city_wall"@ && inc@[1]@ == "ditch"@ && inc@[2]@ == "hedge"@
                && inc@[3]@ == "retaining_wall"@ && inc@[4]@ == "wall"@ && inc@[5]@ == "spikes"@);
            assert forall|v: Seq<char>| #[trigger] str_seq_contains(inc@, v) == (v == "city_wall"@ || v == "ditch"@ || v == "hedge"@ || v == "retaining_wall"@ || v == "wall"@ || v == "spikes"@) by {
                if v == "city_wall"@ {
                    assert(inc@[0]@ == v);
                }
                if v == "ditch"@ {
                    assert(inc@[1]@ == v);
                }
                if v == "hedge"@ {
                    assert(inc@[2]@ == v);
                }
                if v == "retaining_wall"@ {
                    assert(inc@[3]@ == v);
                }
                if v == "wall"@ {
                    assert(inc@[4]@ == v);
                }
                if v == "spikes"@ {
                    assert(inc@[5]@ == v);
                }
            }
        }
        Some(Rule::Values { included: Some(inc), excluded: None })
    } else if streq(tag, "railway") {
        let inc = vec!["station", "turntable", "roundhouse", "platform"];
        proof {
            assert(inc@[0]@ == "station"@ && inc@[1]@ == "turntable"@ && inc@[2]@ == "roundhouse"@
                && inc@[3]@ == "platform"@);
            assert forall|v: Seq<char>| #[trigger] str_seq_contains(inc@, v) == (v == "station"@ || v == "turntable"@ || v == "roundhouse"@ || v == "platform"@) by {
                if v == "station"@ {
                    assert(inc@[0]@ == v);
                }
                if v == "turntable"@ {
                    assert(inc@[1]@ == v);
                }
                if v == "roundhouse"@ {
                    assert(inc@[2]@ == v);
                }
                if v == "platform"@ {
                    assert(inc@[3]@ == v);
                }
            }
        }
        Some(Rule::Values { included: Some(inc), excluded: None })
    } else if streq(tag, "power") {
        let inc = vec!["generator", "station", "sub_station", "transformer"];
        proof {
            assert(inc@[0]@ == "generator"@ && inc@[1]@ == "station"@ && inc@[2]@ == "sub_station"@
                && inc@[3]@ == "transformer"@);
            assert forall|v: Seq<char>| #[trigger] str_seq_contains(inc@, v) == (v == "generator"@ || v == "station"@ || v == "sub_station"@ || v == "transformer"@) by {
                if v == "generator"@ {
                    assert(inc@[0]@ == v);
                }
                if v == "station"@ {
                    assert(inc@[1]@ == v);
                }
                if v == "sub_station"@ {
                    assert(inc@[2]@ == v);
                }
                if v == "transformer"@ {
                    assert(inc@[3]@ == v);
                }
            }
        }
        Some(Rule::Values { included: Some(inc), excluded: None })
    } else if streq(tag, "natural") {
        let exc = vec!["coastline", "ridge", "arete", "tree_row"];
        proof {
            assert(exc@[0]@ == "coastline"@ && exc@[1]@ == "ridge"@ && exc@[2]@ == "arete"@
                && exc@[3]@ == "tree_row"@);
            assert forall|v: Seq<char>| #[trigger] str_seq_contains(exc@, v) == (v == "coastline"@ || v == "ridge"@ || v == "arete"@ || v == "tree_row"@) by {
                if v == "coastline"@ {
                    assert(exc@[0]@ == v);
                }
                if v == "ridge"@ {
                    assert(exc@[1]@ == v);
                }
                if v == "arete"@ {
                    assert(exc@[2]@ == v);
                }
                if v == "tree_row"@ {
                    assert(exc@[3]@ == v);
                }
            }
        }
        Some(Rule::Values { included: None, excluded: Some(exc) })
    } else if streq(tag, "man_made") {
        let exc = vec!["cutline", "embankment", "pipeline"];
        proof {
            assert(exc@[0]@ == "cutline"@ && exc@[1]@ == "embankment"@ && exc@[2]@ == "pipeline"@);
            assert forall|v: Seq<char>| #[trigger] str_seq_contains(exc@, v) == (v == "cutline"@ || v == "embankment"@ || v == "pipeline"@) by {
                if v == "cutline"@ {
                    assert(exc@[0]@ == v);
                }
                if v == "embankment"@ {
                    assert(exc@[1]@ == v);
                }
                if v == "pipeline"@ {
                    assert(exc@[2]@ == v);
                }
            }
        }
        Some(Rule::Values { included: None, excluded: Some(exc) })
    } else if streq(tag, "aeroway") {
        let exc = vec!["taxiway"];
        proof {
            assert(exc@[0]@ == "taxiway"@);
            assert forall|v: Seq<char>| #[trigger] str_seq_contains(exc@, v) == (v == "taxiway"@) by {
                if v == "taxiway"@ {
                    assert(exc@[0]@ == v);
                }
            }
        }
        Some(Rule::Values { included: None, excluded: Some(exc) })
    } else {
        None
    }
}

/// What `rule` says of the value `value`.
fn rule_value_matches(rule: &Rule, value: &String) -> (r: bool)
    ensures
        r == rule_matches(*rule, value@),
{
    match rule {
        Rule::Boolean(b) => *b,
        Rule::Values { included: Some(inc), excluded: _ } => str_vec_contains(inc, value),
        Rule::Values { included: None, excluded: Some(exc) } => !str_vec_contains(exc, value),
        Rule::Values { included: None, excluded: None } => false,
    }
}

/// Whether `v` occurs among the strings of `ss`.
fn str_vec_contains(ss: &Vec<&'static str>, v: &String) -> (r: bool)
    ensures
        r == str_seq_contains(ss@, v@),
{
    let mut i: usize = 0;
    while i < ss.len()
        invariant
            0 <= i <= ss@.len(),
            forall|j: int| 0 <= j < i ==> (#[trigger] ss@[j])@ != v@,
        decreases ss@.len() - i,
    {
        if streq(v, ss[i]) {
            return true;
        }
        i = i + 1;
    }
    false
}

/// Whether the tags mark a closed way as an area under the polygon-feature
/// rules. The outcome depends on the tag map alone, never on the order the
/// pairs stand in.
pub fn is_polygon_feature(tags: &Tags) -> (r: bool)
    requires
        tags.wf(),
    ensures
        r == spec_is_polygon_feature(tags@),
{
    proof {
        lemma_pairs_map(tags.pairs@);
    }
    let area_key: String = "area".to_owned();
    match tags.get(&area_key) {
        Some(v) => {
            if streq(v, "no") {
                return false;
            }
        },
        None => {},
    }
    let mut i: usize = 0;
    while i < tags.pairs.len()
        invariant
            0 <= i <= tags.pairs@.len(),
            forall|j: int|
                0 <= j < i ==> !tag_matches((#[trigger] tags.pairs@[j]).0@, tags.pairs@[j].1@),
        decreases tags.pairs@.len() - i,
    {
        match polygon_feature_rule(&tags.pairs[i].0) {
            Some(rule) => {
                if !streq(&tags.pairs[i].1, "no") {
                    if rule_value_matches(&rule, &tags.pairs[i].1) {
                        proof {
                            let t = tags.pairs@[i as int].0@;
                            assert(tags@.contains_key(t) && tags@[t] == tags.pairs@[i as int].1@);
                            assert(tag_matches(t, tags@[t]));
                        }
                        return true;
                    }
                }
            },
            None => {},
        }
        i = i + 1;
    }
    proof {
        assert forall|t: Seq<char>| #[trigger]
            tags@.contains_key(t) implies !tag_matches(t, tags@[t]) by {
            let j = choose|j: int| 0 <= j < tags.pairs@.len() && tags.pairs@[j].0@ == t;
            assert(tags@[t] == tags.pairs@[j].1@);
            assert(!tag_matches(tags.pairs@[j].0@, tags.pairs@[j].1@));
        }
    }
    false
}

/// Two tag collections with the same mapping — however their pairs happen to
/// be ordered — classify alike: the polygon-feature outcome is a function of
/// the map alone.
pub proof fn lemma_polygon_feature_order_independent(t1: Tags, t2: Tags)
    requires
        t1@ == t2@,
    ensures
        spec_is_polygon_feature(t1@) == spec_is_polygon_feature(t2@),
{
}

} // verus!
