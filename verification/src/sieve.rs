//! Sieve filter rules and their script form: each rule serializes under a
//! `# Rule:` banner (`# DISABLED:` when off), multi-condition rules wrap in
//! `allof (...)`, and the script opens with the `require` header. The parser
//! inverts that shape line by line.

use vstd::prelude::*;

use crate::textutil::{
    chars_to_string, contains_seq, push_u64_digits, spec_contains_seq, spec_split,
    spec_starts_with, spec_trim, spec_u64_digits, split_chars, starts_with_chars, str_to_chars,
    trim_chars,
};
use vstd::string::StringSliceAdditionalSpecFns;
use vstd::utf8::encode_utf8;

verus! {

/// A stored script as listed by the server.
#[derive(Clone, Debug)]
pub struct SieveScript {
    pub name: String,
    pub active: bool,
    pub content: Option<String>,
}

/// One header test of a rule.
#[derive(Clone, Debug)]
pub struct SieveCondition {
    pub field: String,
    pub operator: String,
    pub value: String,
    pub header_name: Option<String>,
}

/// One action of a rule.
#[derive(Clone, Debug)]
pub struct SieveAction {
    pub action_type: String,
    pub value: Option<String>,
}

/// A visual filter rule.
#[derive(Clone, Debug)]
pub struct SieveRule {
    pub id: String,
    pub name: String,
    pub enabled: bool,
    pub conditions: Vec<SieveCondition>,
    pub actions: Vec<SieveAction>,
}

#[verifier::ext_equal]
pub struct CondV {
    pub field: Seq<char>,
    pub operator: Seq<char>,
    pub value: Seq<char>,
    pub header_name: Option<Seq<char>>,
}

#[verifier::ext_equal]
pub struct ActV {
    pub action_type: Seq<char>,
    pub value: Option<Seq<char>>,
}

#[verifier::ext_equal]
pub struct RuleV {
    pub id: Seq<char>,
    pub name: Seq<char>,
    pub enabled: bool,
    pub conditions: Seq<CondV>,
    pub actions: Seq<ActV>,
}

pub open spec fn spec_cond_v(c: SieveCondition) -> CondV {
    CondV {
        field: c.field@,
        operator: c.operator@,
        value: c.value@,
        header_name: match c.header_name {
            Some(h) => Some(h@),
            None => None,
        },
    }
}

pub open spec fn spec_act_v(a: SieveAction) -> ActV {
    ActV {
        action_type: a.action_type@,
        value: match a.value {
            Some(v) => Some(v@),
            None => None,
        },
    }
}

pub open spec fn spec_rule_v(r: SieveRule) -> RuleV {
    RuleV {
        id: r.id@,
        name: r.name@,
        enabled: r.enabled,
        conditions: r.conditions@.map_values(|c: SieveCondition| spec_cond_v(c)),
        actions: r.actions@.map_values(|a: SieveAction| spec_act_v(a)),
    }
}

/// The header field a condition tests.
pub open spec fn spec_cond_field(c: CondV) -> Seq<char> {
    if c.field == "from"@ || c.field == "to"@ || c.field == "subject"@ {
        c.field
    } else if c.field == "header"@ {
        match c.header_name {
            Some(h) => h,
            None => "X-Custom"@,
        }
    } else {
        "from"@
    }
}

pub open spec fn spec_cond_op(c: CondV) -> Seq<char> {
    if c.operator == "contains"@ {
        "contains"@
    } else if c.operator == "is"@ {
        "is"@
    } else if c.operator == "matches"@ {
        "matches"@
    } else if c.operator == "regex"@ {
        "regex"@
    } else {
        "contains"@
    }
}

/// One condition as a Sieve test.
pub open spec fn spec_cond_test(c: CondV) -> Seq<char> {
    "header :"@ + spec_cond_op(c) + " \""@ + spec_cond_field(c) + "\" \""@ + c.value + "\""@
}

/// The conditions joined with `,\n`, indented when wrapped in `allof`.
pub open spec fn spec_conds_text(cs: Seq<CondV>, multi: bool) -> Seq<char>
    decreases cs.len(),
{
    let indent: Seq<char> = if multi {
        "    "@
    } else {
        Seq::empty()
    };
    if cs.len() == 0 {
        Seq::empty()
    } else if cs.len() == 1 {
        indent + spec_cond_test(cs[0])
    } else {
        spec_conds_text(cs.drop_last(), multi) + ",\n"@ + indent + spec_cond_test(cs.last())
    }
}

/// One action as a Sieve command line.
pub open spec fn spec_act_text(a: ActV) -> Seq<char> {
    if a.action_type == "fileinto"@ {
        "    fileinto \""@ + (match a.value {
            Some(v) => v,
            None => "INBOX"@,
        }) + "\";\n"@
    } else if a.action_type == "redirect"@ {
        "    redirect \""@ + (match a.value {
            Some(v) => v,
            None => Seq::empty(),
        }) + "\";\n"@
    } else if a.action_type == "discard"@ {
        "    discard;\n"@
    } else if a.action_type == "keep"@ {
        "    keep;\n"@
    } else if a.action_type == "flag"@ {
        "    addflag \""@ + (match a.value {
            Some(v) => v,
            None => "\\Flagged"@,
        }) + "\";\n"@
    } else if a.action_type == "reject"@ {
        "    reject \""@ + (match a.value {
            Some(v) => v,
            None => "Message rejected"@,
        }) + "\";\n"@
    } else {
        "    keep;\n"@
    }
}

pub open spec fn spec_acts_text(acts: Seq<ActV>) -> Seq<char>
    decreases acts.len(),
{
    if acts.len() == 0 {
        Seq::empty()
    } else {
        spec_acts_text(acts.drop_last()) + spec_act_text(acts.last())
    }
}

/// One rule's script text: banner, `if` with the tests, and the action block.
pub open spec fn spec_rule_text(r: RuleV) -> Seq<char> {
    let banner: Seq<char> = (if !r.enabled {
        "# DISABLED: "@
    } else {
        Seq::empty()
    }) + "# Rule: "@ + r.name + "\n"@;
    if r.conditions.len() == 0 {
        banner
    } else {
        let multi = r.conditions.len() > 1;
        banner + "if "@ + (if multi {
            "allof (\n"@
        } else {
            Seq::empty()
        }) + spec_conds_text(r.conditions, multi) + (if multi {
            "\n)"@
        } else {
            Seq::empty()
        }) + " {\n"@ + spec_acts_text(r.actions) + "}\n\n"@
    }
}

pub open spec fn spec_rules_text(rs: Seq<RuleV>) -> Seq<char>
    decreases rs.len(),
{
    if rs.len() == 0 {
        Seq::empty()
    } else {
        spec_rules_text(rs.drop_last()) + spec_rule_text(rs.last())
    }
}

/// The whole script: the `require` header, then each rule in order.
pub open spec fn spec_sieve_script(rs: Seq<RuleV>) -> Seq<char> {
    "require [\"fileinto\", \"imap4flags\", \"reject\", \"vacation\"];\n\n"@ + spec_rules_text(rs)
}

#[verifier::ext_equal]
pub struct ParseStateV {
    pub rules: Seq<RuleV>,
    pub cur: Option<RuleV>,
    pub next_id: int,
}

/// Repeatedly strips the prefix, as `trim_start_matches` does.
pub open spec fn spec_strip_rep(s: Seq<char>, p: Seq<char>) -> Seq<char>
    decreases s.len(),
{
    if p.len() > 0 && spec_starts_with(s, p) {
        spec_strip_rep(s.skip(p.len() as int), p)
    } else {
        s
    }
}

pub open spec fn spec_new_rule(next_id: int, name: Seq<char>, enabled: bool) -> RuleV {
    RuleV {
        id: "rule_"@ + spec_u64_digits(next_id),
        name,
        enabled,
        conditions: Seq::empty(),
        actions: Seq::empty(),
    }
}

pub open spec fn spec_flush(st: ParseStateV) -> ParseStateV {
    match st.cur {
        Some(r) => ParseStateV { rules: st.rules.push(r), cur: None, next_id: st.next_id },
        None => st,
    }
}

/// The parser's transition on one (trimmed) script line.
pub open spec fn spec_parse_line(st: ParseStateV, t: Seq<char>) -> ParseStateV {
    if spec_starts_with(t, "# Rule:"@) {
        let f = spec_flush(st);
        ParseStateV {
            rules: f.rules,
            cur: Some(spec_new_rule(st.next_id, spec_trim(spec_strip_rep(t, "# Rule:"@)), true)),
            next_id: st.next_id + 1,
        }
    } else if spec_starts_with(t, "# DISABLED:"@) {
        let rest = spec_trim(t.skip(11));
        if spec_starts_with(rest, "# Rule:"@) {
            let f = spec_flush(st);
            ParseStateV {
                rules: f.rules,
                cur: Some(
                    spec_new_rule(st.next_id, spec_trim(spec_strip_rep(rest, "# Rule:"@)), false),
                ),
                next_id: st.next_id + 1,
            }
        } else {
            match st.cur {
                Some(r) => ParseStateV {
                    rules: st.rules,
                    cur: Some(RuleV { enabled: false, ..r }),
                    next_id: st.next_id,
                },
                None => st,
            }
        }
    } else if spec_contains_seq(t, "header :contains"@) || spec_contains_seq(t, "header :is"@)
        || spec_contains_seq(t, "header :matches"@) || spec_contains_seq(t, "header :regex"@) {
        match st.cur {
            Some(r) => {
                let parts = spec_split(t, '"');
                if parts.len() >= 4 {
                    let op: Seq<char> = if spec_contains_seq(t, ":contains"@) {
                        "contains"@
                    } else if spec_contains_seq(t, ":is"@) {
                        "is"@
                    } else if spec_contains_seq(t, ":matches"@) {
                        "matches"@
                    } else if spec_contains_seq(t, ":regex"@) {
                        "regex"@
                    } else {
                        "contains"@
                    };
                    let c = CondV {
                        field: parts[1],
                        operator: op,
                        value: parts[3],
                        header_name: None,
                    };
                    ParseStateV {
                        rules: st.rules,
                        cur: Some(RuleV { conditions: r.conditions.push(c), ..r }),
                        next_id: st.next_id,
                    }
                } else {
                    st
                }
            },
            None => st,
        }
    } else {
        match st.cur {
            Some(r) => {
                let parts = spec_split(t, '"');
                let act: Option<ActV> = if spec_starts_with(t, "fileinto"@) {
                    if parts.len() >= 2 {
                        Some(ActV { action_type: "fileinto"@, value: Some(parts[1]) })
                    } else {
                        None
                    }
                } else if spec_starts_with(t, "redirect"@) {
                    if parts.len() >= 2 {
                        Some(ActV { action_type: "redirect"@, value: Some(parts[1]) })
                    } else {
                        None
                    }
                } else if spec_starts_with(t, "discard"@) {
                    Some(ActV { action_type: "discard"@, value: None })
                } else if spec_starts_with(t, "keep"@) {
                    Some(ActV { action_type: "keep"@, value: None })
                } else if spec_starts_with(t, "addflag"@) {
                    if parts.len() >= 2 {
                        Some(ActV { action_type: "flag"@, value: Some(parts[1]) })
                    } else {
                        None
                    }
                } else if spec_starts_with(t, "reject"@) {
                    if parts.len() >= 2 {
                        Some(ActV { action_type: "reject"@, value: Some(parts[1]) })
                    } else {
                        None
                    }
                } else {
                    None
                };
                match act {
                    Some(a) => ParseStateV {
                        rules: st.rules,
                        cur: Some(RuleV { actions: r.actions.push(a), ..r }),
                        next_id: st.next_id,
                    },
                    None => st,
                }
            },
            None => st,
        }
    }
}

pub open spec fn spec_parse_fold(lines: Seq<Seq<char>>) -> ParseStateV
    decreases lines.len(),
{
    if lines.len() == 0 {
        ParseStateV { rules: Seq::empty(), cur: None, next_id: 0 }
    } else {
        spec_parse_line(spec_parse_fold(lines.drop_last()), spec_trim(lines.last()))
    }
}

/// The rules read back from a script: each line trimmed and folded through
/// the transition above, with a final flush.
pub open spec fn spec_parse_sieve_script(script: Seq<char>) -> Seq<RuleV> {
    spec_flush(spec_parse_fold(spec_split(script, '\n'))).rules
}

pub open spec fn spec_state_v(
    rules: Seq<RuleV>,
    cur: Option<SieveRule>,
    next_id: int,
) -> ParseStateV {
    ParseStateV {
        rules,
        cur: match cur {
            Some(r) => Some(spec_rule_v(r)),
            None => None,
        },
        next_id,
    }
}

/// Parses a Sieve script back into filter rules.
#[verifier::rlimit(100)]
pub fn parse_sieve_script(script: &str) -> (r: Vec<SieveRule>)
    ensures
        r@.map_values(|x: SieveRule| spec_rule_v(x)) == spec_parse_sieve_script(script@),
{
    proof {
        reveal_strlit("# Rule:");
        reveal_strlit("# DISABLED:");
    }
    let chars = str_to_chars(script);
    let lines = split_chars(&chars, '\n');
    let ghost lviews = lines@.map_values(|p: Vec<char>| p@);
    let mut rules: Vec<SieveRule> = Vec::new();
    let mut cur: Option<SieveRule> = None;
    let mut next_id: u64 = 0;
    let mut i: usize = 0;
    proof {
        assert(lviews.take(0) =~= Seq::<Seq<char>>::empty());
        assert(rules@.map_values(|x: SieveRule| spec_rule_v(x)) =~= Seq::<RuleV>::empty());
    }
    while i < lines.len()
        invariant
            i <= lines@.len(),
            lviews == lines@.map_values(|p: Vec<char>| p@),
            next_id <= i,
            spec_state_v(
                rules@.map_values(|x: SieveRule| spec_rule_v(x)),
                cur,
                next_id as int,
            ) == spec_parse_fold(lviews.take(i as int)),
        decreases lines@.len() - i,
    {
        let ghost st_pre = spec_state_v(
            rules@.map_values(|x: SieveRule| spec_rule_v(x)),
            cur,
            next_id as int,
        );
        proof {
            assert(lviews.take(i as int + 1).drop_last() =~= lviews.take(i as int));
            assert(lviews.take(i as int + 1).last() == lviews[i as int]);
            assert(lviews[i as int] == lines@[i as int]@);
        }
        proof {
            reveal_strlit("# Rule:");
            reveal_strlit("# DISABLED:");
        }
        let t = trim_chars(&lines[i]);
        let ghost tv = spec_trim(lines@[i as int]@);
        let rule_banner = str_to_chars("# Rule:");
        let disabled_banner = str_to_chars("# DISABLED:");
        if starts_with_chars(&t, &rule_banner) {
            let ghost pre_rules = rules@.map_values(|x: SieveRule| spec_rule_v(x));
            match cur {
                Some(r) => {
                    rules.push(r);
                    proof {
                        assert(rules@.map_values(|x: SieveRule| spec_rule_v(x)) =~= pre_rules.push(
                            spec_rule_v(rules@.last()),
                        ));
                    }
                },
                None => {},
            }
            cur = Some(new_rule_from(&t, &rule_banner, next_id, true));
            next_id = next_id + 1;
            proof {
                assert(spec_state_v(
                    rules@.map_values(|x: SieveRule| spec_rule_v(x)),
                    cur,
                    next_id as int,
                ) =~~= spec_parse_line(st_pre, tv));
            }
        } else if starts_with_chars(&t, &disabled_banner) {
            let after = collect_from(&t, 11);
            let rest = trim_chars(&after);
            proof {
                assert(after@ =~= tv.skip(11));
            }
            if starts_with_chars(&rest, &rule_banner) {
                let ghost pre_rules = rules@.map_values(|x: SieveRule| spec_rule_v(x));
                match cur {
                    Some(r) => {
                        rules.push(r);
                        proof {
                            assert(rules@.map_values(|x: SieveRule| spec_rule_v(x))
                                =~= pre_rules.push(spec_rule_v(rules@.last())));
                        }
                    },
                    None => {},
                }
                cur = Some(new_rule_from(&rest, &rule_banner, next_id, false));
                next_id = next_id + 1;
                proof {
                    assert(spec_state_v(
                        rules@.map_values(|x: SieveRule| spec_rule_v(x)),
                        cur,
                        next_id as int,
                    ) =~~= spec_parse_line(st_pre, tv));
                }
            } else {
                cur = match cur {
                    Some(r) => Some(SieveRule { enabled: false, ..r }),
                    None => None,
                };
                proof {
                    assert(spec_state_v(
                        rules@.map_values(|x: SieveRule| spec_rule_v(x)),
                        cur,
                        next_id as int,
                    ) =~~= spec_parse_line(st_pre, tv));
                }
            }
        } else {
            let hc = str_to_chars("header :contains");
            let hi = str_to_chars("header :is");
            let hm = str_to_chars("header :matches");
            let hr = str_to_chars("header :regex");
            let is_cond = contains_seq(&t, &hc) || contains_seq(&t, &hi) || contains_seq(&t, &hm)
                || contains_seq(&t, &hr);
            if is_cond {
                cur = match cur {
                    Some(mut r) => {
                        let parts = split_chars(&t, '"');
                        proof {
                            assert(parts@.map_values(|p: Vec<char>| p@).len() == parts@.len());
                        }
                        if parts.len() >= 4 {
                            let c1 = str_to_chars(":contains");
                            let c2 = str_to_chars(":is");
                            let c3 = str_to_chars(":matches");
                            let c4 = str_to_chars(":regex");
                            let op: &str = if contains_seq(&t, &c1) {
                                "contains"
                            } else if contains_seq(&t, &c2) {
                                "is"
                            } else if contains_seq(&t, &c3) {
                                "matches"
                            } else if contains_seq(&t, &c4) {
                                "regex"
                            } else {
                                "contains"
                            };
                            proof {
                                assert(parts@.map_values(|p: Vec<char>| p@)[1] == parts@[1]@);
                                assert(parts@.map_values(|p: Vec<char>| p@)[3] == parts@[3]@);
                            }
                            let cond = SieveCondition {
                                field: chars_to_string(&parts[1]),
                                operator: op.to_owned(),
                                value: chars_to_string(&parts[3]),
                                header_name: None,
                            };
                            r.conditions.push(cond);
                            proof {
                                assert(r.conditions@.map_values(
                                    |c: SieveCondition| spec_cond_v(c),
                                ) =~= r.conditions@.take(r.conditions@.len() - 1).map_values(
                                    |c: SieveCondition| spec_cond_v(c),
                                ).push(spec_cond_v(r.conditions@.last())));
                            }
                            Some(r)
                        } else {
                            Some(r)
                        }
                    },
                    None => None,
                };
                proof {
                    assert(spec_state_v(
                        rules@.map_values(|x: SieveRule| spec_rule_v(x)),
                        cur,
                        next_id as int,
                    ) =~~= spec_parse_line(st_pre, tv));
                }
            } else {
                cur = match cur {
                    Some(mut r) => {
                        let parts = split_chars(&t, '"');
                        let fi = str_to_chars("fileinto");
                        let rd = str_to_chars("redirect");
                        let dc = str_to_chars("discard");
                        let kp = str_to_chars("keep");
                        let af = str_to_chars("addflag");
                        let rj = str_to_chars("reject");
                        proof {
                            assert(parts@.map_values(|p: Vec<char>| p@).len() == parts@.len());
                            if parts@.len() >= 2 {
                                assert(parts@.map_values(|p: Vec<char>| p@)[1] == parts@[1]@);
                            }
                        }
                        let act: Option<SieveAction> = if starts_with_chars(&t, &fi) {
                            if parts.len() >= 2 {
                                Some(SieveAction {
                                    action_type: "fileinto".to_owned(),
                                    value: Some(chars_to_string(&parts[1])),
                                })
                            } else {
                                None
                            }
                        } else if starts_with_chars(&t, &rd) {
                            if parts.len() >= 2 {
                                Some(SieveAction {
                                    action_type: "redirect".to_owned(),
                                    value: Some(chars_to_string(&parts[1])),
                                })
                            } else {
                                None
                            }
                        } else if starts_with_chars(&t, &dc) {
                            Some(SieveAction { action_type: "discard".to_owned(), value: None })
                        } else if starts_with_chars(&t, &kp) {
                            Some(SieveAction { action_type: "keep".to_owned(), value: None })
                        } else if starts_with_chars(&t, &af) {
                            if parts.len() >= 2 {
                                Some(SieveAction {
                                    action_type: "flag".to_owned(),
                                    value: Some(chars_to_string(&parts[1])),
                                })
                            } else {
                                None
                            }
                        } else if starts_with_chars(&t, &rj) {
                            if parts.len() >= 2 {
                                Some(SieveAction {
                                    action_type: "reject".to_owned(),
                                    value: Some(chars_to_string(&parts[1])),
                                })
                            } else {
                                None
                            }
                        } else {
                            None
                        };
                        match act {
                            Some(a) => {
                                r.actions.push(a);
                                proof {
                                    assert(r.actions@.map_values(
                                        |x: SieveAction| spec_act_v(x),
                                    ) =~= r.actions@.take(r.actions@.len() - 1).map_values(
                                        |x: SieveAction| spec_act_v(x),
                                    ).push(spec_act_v(r.actions@.last())));
                                }
                                Some(r)
                            },
                            None => Some(r),
                        }
                    },
                    None => None,
                };
                proof {
                    assert(spec_state_v(
                        rules@.map_values(|x: SieveRule| spec_rule_v(x)),
                        cur,
                        next_id as int,
                    ) =~~= spec_parse_line(st_pre, tv));
                }
            }
        }
        i = i + 1;
    }
    proof {
        assert(lviews.take(i as int) =~= lviews);
    }
    match cur {
        Some(r) => {
            rules.push(r);
            proof {
                assert(rules@.map_values(|x: SieveRule| spec_rule_v(x)) =~= rules@.take(
                    rules@.len() - 1,
                ).map_values(|x: SieveRule| spec_rule_v(x)).push(spec_rule_v(rules@.last())));
            }
        },
        None => {},
    }
    rules
}

/// A fresh rule from a banner line: the text after the banner, trimmed.
fn new_rule_from(t: &Vec<char>, banner: &Vec<char>, next_id: u64, enabled: bool) -> (r: SieveRule)
    requires
        banner@ == "# Rule:"@,
    ensures
        spec_rule_v(r) == spec_new_rule(next_id as int, spec_trim(spec_strip_rep(t@, "# Rule:"@)),
            enabled,
        ),
{
    proof {
        reveal_strlit("# Rule:");
    }
    let mut rest: Vec<char> = collect_from(t, 0);
    proof {
        assert(rest@ =~= t@);
    }
    while starts_with_chars(&rest, banner)
        invariant
            banner@ == "# Rule:"@,
            spec_strip_rep(rest@, "# Rule:"@) == spec_strip_rep(t@, "# Rule:"@),
        decreases rest@.len(),
    {
        proof {
            reveal_strlit("# Rule:");
            assert(rest@.len() >= 7);
        }
        let next = collect_from(&rest, 7);
        proof {
            assert(next@ =~= rest@.skip(7));
        }
        rest = next;
    }
    proof {
        reveal_strlit("# Rule:");
    }
    let name_chars = trim_chars(&rest);
    let mut id = String::new();
    id.append("rule_");
    let digits = crate::textutil::u64_to_string(next_id);
    id.append(digits.as_str());
    let r = SieveRule {
        id,
        name: chars_to_string(&name_chars),
        enabled,
        conditions: Vec::new(),
        actions: Vec::new(),
    };
    proof {
        assert(r.conditions@.map_values(|c: SieveCondition| spec_cond_v(c)) =~= Seq::<
            CondV,
        >::empty());
        assert(r.actions@.map_values(|a: SieveAction| spec_act_v(a)) =~= Seq::<ActV>::empty());
    }
    r
}

fn collect_from(t: &Vec<char>, from: usize) -> (r: Vec<char>)
    ensures
        r@ == if from <= t@.len() {
            t@.skip(from as int)
        } else {
            Seq::<char>::empty()
        },
{
    let mut out: Vec<char> = Vec::new();
    if from > t.len() {
        return out;
    }
    let mut k: usize = from;
    proof {
        assert(out@ =~= t@.subrange(from as int, from as int));
    }
    while k < t.len()
        invariant
            from <= k <= t@.len(),
            out@ == t@.subrange(from as int, k as int),
        decreases t@.len() - k,
    {
        out.push(t[k]);
        proof {
            assert(t@.subrange(from as int, k as int + 1) =~= t@.subrange(
                from as int,
                k as int,
            ).push(t@[k as int]));
        }
        k = k + 1;
    }
    proof {
        assert(t@.subrange(from as int, t@.len() as int) =~= t@.skip(from as int));
    }
    out
}

fn push_cond_test(c: &SieveCondition, out: &mut String)
    ensures
        final(out)@ == old(out)@ + spec_cond_test(spec_cond_v(*c)),
{
    out.append("header :");
    if crate::textutil::str_eq(c.operator.as_str(), "contains") {
        out.append("contains");
    } else if crate::textutil::str_eq(c.operator.as_str(), "is") {
        out.append("is");
    } else if crate::textutil::str_eq(c.operator.as_str(), "matches") {
        out.append("matches");
    } else if crate::textutil::str_eq(c.operator.as_str(), "regex") {
        out.append("regex");
    } else {
        out.append("contains");
    }
    out.append(" \"");
    if crate::textutil::str_eq(c.field.as_str(), "from") || crate::textutil::str_eq(
        c.field.as_str(),
        "to",
    ) || crate::textutil::str_eq(c.field.as_str(), "subject") {
        out.append(c.field.as_str());
    } else if crate::textutil::str_eq(c.field.as_str(), "header") {
        match &c.header_name {
            Some(h) => out.append(h.as_str()),
            None => out.append("X-Custom"),
        }
    } else {
        out.append("from");
    }
    out.append("\" \"");
    out.append(c.value.as_str());
    out.append("\"");
    proof {
        assert(final(out)@ =~= old(out)@ + spec_cond_test(spec_cond_v(*c)));
    }
}

fn push_act_text(a: &SieveAction, out: &mut String)
    ensures
        final(out)@ == old(out)@ + spec_act_text(spec_act_v(*a)),
{
    if crate::textutil::str_eq(a.action_type.as_str(), "fileinto") {
        out.append("    fileinto \"");
        match &a.value {
            Some(v) => out.append(v.as_str()),
            None => out.append("INBOX"),
        }
        out.append("\";\n");
    } else if crate::textutil::str_eq(a.action_type.as_str(), "redirect") {
        out.append("    redirect \"");
        match &a.value {
            Some(v) => out.append(v.as_str()),
            None => {},
        }
        out.append("\";\n");
    } else if crate::textutil::str_eq(a.action_type.as_str(), "discard") {
        out.append("    discard;\n");
    } else if crate::textutil::str_eq(a.action_type.as_str(), "keep") {
        out.append("    keep;\n");
    } else if crate::textutil::str_eq(a.action_type.as_str(), "flag") {
        out.append("    addflag \"");
        match &a.value {
            Some(v) => out.append(v.as_str()),
            None => out.append("\\Flagged"),
        }
        out.append("\";\n");
    } else if crate::textutil::str_eq(a.action_type.as_str(), "reject") {
        out.append("    reject \"");
        match &a.value {
            Some(v) => out.append(v.as_str()),
            None => out.append("Message rejected"),
        }
        out.append("\";\n");
    } else {
        out.append("    keep;\n");
    }
    proof {
        assert(final(out)@ =~= old(out)@ + spec_act_text(spec_act_v(*a)));
    }
}

/// Appends one rule's script text.
#[verifier::rlimit(100)]
fn push_rule_text(rule: &SieveRule, out: &mut String)
    ensures
        final(out)@ == old(out)@ + spec_rule_text(spec_rule_v(*rule)),
{
    let ghost rv = spec_rule_v(*rule);
    let ghost pre = out@;
    if !rule.enabled {
        out.append("# DISABLED: ");
    }
    out.append("# Rule: ");
    out.append(rule.name.as_str());
    out.append("\n");
    if rule.conditions.len() > 0 {
        let multi = rule.conditions.len() > 1;
        out.append("if ");
        if multi {
            out.append("allof (\n");
        }
        let mut j: usize = 0;
        let ghost cvs = rv.conditions;
        let ghost before_conds = out@;
        proof {
            assert(cvs.take(0) =~= Seq::<CondV>::empty());
            assert(out@ =~= before_conds + spec_conds_text(cvs.take(0), multi));
        }
        while j < rule.conditions.len()
            invariant
                j <= rule.conditions@.len(),
                cvs == rule.conditions@.map_values(|c: SieveCondition| spec_cond_v(c)),
                multi == (rule.conditions@.len() > 1),
                out@ == before_conds + spec_conds_text(cvs.take(j as int), multi),
            decreases rule.conditions@.len() - j,
        {
            proof {
                assert(cvs.take(j as int + 1).drop_last() =~= cvs.take(j as int));
                assert(cvs.take(j as int + 1).last() == cvs[j as int]);
                assert(cvs[j as int] == spec_cond_v(rule.conditions@[j as int]));
            }
            if j > 0 {
                out.append(",\n");
            }
            if multi {
                out.append("    ");
            }
            push_cond_test(&rule.conditions[j], out);
            proof {
                assert(out@ =~= before_conds + spec_conds_text(cvs.take(j as int + 1), multi));
            }
            j = j + 1;
        }
        proof {
            assert(cvs.take(j as int) =~= cvs);
        }
        if multi {
            out.append("\n)");
        }
        out.append(" {\n");
        let mut k: usize = 0;
        let ghost avs = rv.actions;
        let ghost before_acts = out@;
        proof {
            assert(avs.take(0) =~= Seq::<ActV>::empty());
            assert(out@ =~= before_acts + spec_acts_text(avs.take(0)));
        }
        while k < rule.actions.len()
            invariant
                k <= rule.actions@.len(),
                avs == rule.actions@.map_values(|a: SieveAction| spec_act_v(a)),
                out@ == before_acts + spec_acts_text(avs.take(k as int)),
            decreases rule.actions@.len() - k,
        {
            proof {
                assert(avs.take(k as int + 1).drop_last() =~= avs.take(k as int));
                assert(avs.take(k as int + 1).last() == avs[k as int]);
                assert(avs[k as int] == spec_act_v(rule.actions@[k as int]));
            }
            push_act_text(&rule.actions[k], out);
            proof {
                assert(out@ =~= before_acts + spec_acts_text(avs.take(k as int + 1)));
            }
            k = k + 1;
        }
        proof {
            assert(avs.take(k as int) =~= avs);
        }
        out.append("}\n\n");
    }
    proof {
        assert(out@ =~= pre + spec_rule_text(rv));
    }
}

/// Serializes filter rules into a Sieve script.
pub fn rules_to_sieve_script(rules: &Vec<SieveRule>) -> (r: String)
    ensures
        r@ == spec_sieve_script(rules@.map_values(|x: SieveRule| spec_rule_v(x))),
{
    let ghost rviews = rules@.map_values(|x: SieveRule| spec_rule_v(x));
    let mut out = String::new();
    out.append("require [\"fileinto\", \"imap4flags\", \"reject\", \"vacation\"];\n\n");
    let mut i: usize = 0;
    proof {
        assert(rviews.take(0) =~= Seq::<RuleV>::empty());
        assert(out@ =~= "require [\"fileinto\", \"imap4flags\", \"reject\", \"vacation\"];\n\n"@
            + spec_rules_text(rviews.take(0)));
    }
    while i < rules.len()
        invariant
            i <= rules@.len(),
            rviews == rules@.map_values(|x: SieveRule| spec_rule_v(x)),
            out@ == "require [\"fileinto\", \"imap4flags\", \"reject\", \"vacation\"];\n\n"@
                + spec_rules_text(rviews.take(i as int)),
        decreases rules@.len() - i,
    {
        proof {
            assert(rviews.take(i as int + 1).drop_last() =~= rviews.take(i as int));
            assert(rviews.take(i as int + 1).last() == rviews[i as int]);
            assert(rviews[i as int] == spec_rule_v(rules@[i as int]));
        }
        push_rule_text(&rules[i], &mut out);
        proof {
            assert(out@ =~= "require [\"fileinto\", \"imap4flags\", \"reject\", \"vacation\"];\n\n"@
                + spec_rules_text(rviews.take(i as int + 1)));
        }
        i = i + 1;
    }
    proof {
        assert(rviews.take(i as int) =~= rviews);
    }
    out
}

/// The wire form of a ManageSieve script upload: the PUTSCRIPT verb, the
/// quoted script name, and the script as a non-synchronizing literal whose
/// announced length counts its UTF-8 bytes.
pub open spec fn spec_putscript_command(name: Seq<char>, content: Seq<char>) -> Seq<char> {
    "PUTSCRIPT \""@ + name + "\" {"@ + spec_u64_digits(encode_utf8(content).len() as int)
        + "+}\r\n"@ + content + "\r\n"@
}

/// Frames a script for upload; the server reads exactly the announced
/// number of bytes as the script.
pub fn putscript_command(name: &str, content: &str) -> (r: String)
    ensures
        r@ == spec_putscript_command(name@, content@),
{
    let mut out = String::new();
    out.append("PUTSCRIPT \"");
    out.append(name);
    out.append("\" {");
    let bytes = content.as_bytes();
    let blen: usize = bytes.len();
    let mut digits: Vec<char> = Vec::new();
    push_u64_digits(blen as u64, &mut digits);
    proof {
        assert(bytes@ == content.spec_bytes());
        assert(content.spec_bytes() == encode_utf8(content@));
        assert(blen == bytes@.len());
        assert((blen as u64) as int == encode_utf8(content@).len() as int);
        assert(digits@ =~= spec_u64_digits(encode_utf8(content@).len() as int));
    }
    let dstr = chars_to_string(&digits);
    out.append(dstr.as_str());
    out.append("+}\r\n");
    out.append(content);
    out.append("\r\n");
    proof {
        assert(out@ =~= spec_putscript_command(name@, content@));
    }
    out
}

} // verus!
