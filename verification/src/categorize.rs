//! Lexical categorization.
//!
//! A pure, data-driven classifier: an ordered table of rules, each a set
//! of exact-match conditions on single fields of the analyzer's
//! grammatical tag tuple (unnamed fields are wildcards), paired with the
//! resulting category.  Rules are tried top to bottom and the first match
//! wins; no match means `Other`.  Two tables exist, one per dictionary
//! schema, selected once by the tag tuple's length (9 or 17 fields),
//! never inside the rule walk.

use vstd::prelude::*;

verus! {

/// The closed set of grammatical classifications used to choose a
/// presentation treatment.
#[derive(Clone, Copy, Debug, PartialEq, Eq, Structural)]
pub enum LexicalCategory {
    Noun,
    ProperNoun,
    SuruVerb,
    NounSuffix,
    Keiyoudoushi,
    Pronoun,
    AdjectiveIDictForm,
    AdjectiveIConjForm,
    NegationDictForm,
    NegationConjForm,
    Adverb,
    AdverbificationParticle,
    AdjectivisationParticle,
    ContinuativeParticle,
    ContinuativeAuxiliary,
    Verb,
    AuxiliaryVerb,
    AttributiveParticle,
    Particle,
    CaseParticle,
    ConnectingParticle,
    Sign,
    Other,
}

/// One rule: the tag fields it examines, each with the exact value it
/// demands (fields not listed are wildcards), and the category a matching
/// tuple receives.
pub struct Rule {
    pub conds: Vec<(usize, String)>,
    pub category: LexicalCategory,
}

/// The mathematical image of a rule.
#[verifier::ext_equal]
pub ghost struct RuleV {
    pub conds: Seq<(int, Seq<char>)>,
    pub category: LexicalCategory,
}

impl View for Rule {
    type V = RuleV;

    open spec fn view(&self) -> RuleV {
        RuleV {
            conds: self.conds@.map_values(|c: (usize, String)| (c.0 as int, c.1@)),
            category: self.category,
        }
    }
}

/// The views of a rule table.
pub open spec fn rule_views(rs: Seq<Rule>) -> Seq<RuleV> {
    rs.map_values(|r: Rule| r@)
}

/// A rule matches when every condition's field exists and holds exactly
/// the demanded value.
pub open spec fn spec_rule_matches(r: RuleV, tags: Seq<Seq<char>>) -> bool {
    forall|j: int|
        0 <= j < r.conds.len() ==> {
            &&& 0 <= (#[trigger] r.conds[j]).0 < tags.len()
            &&& tags[r.conds[j].0] == r.conds[j].1
        }
}

/// Top-to-bottom rule evaluation, first match wins, no match is `Other`.
pub open spec fn spec_first_match(rules: Seq<RuleV>, tags: Seq<Seq<char>>) -> LexicalCategory
    decreases rules.len(),
{
    if rules.len() == 0 {
        LexicalCategory::Other
    } else if spec_rule_matches(rules.first(), tags) {
        rules.first().category
    } else {
        spec_first_match(rules.drop_first(), tags)
    }
}

fn rule1(i0: usize, v0: &str, category: LexicalCategory) -> (r: Rule)
    ensures
        r@ == (RuleV { conds: seq![(i0 as int, v0@)], category }),
{
    let r = Rule { conds: vec![(i0, v0.to_owned())], category };
    proof {
        assert(r@.conds =~= seq![(i0 as int, v0@)]);
        assert(r@ =~~= (RuleV { conds: seq![(i0 as int, v0@)], category }));
    }
    r
}

fn rule2(i0: usize, v0: &str, i1: usize, v1: &str, category: LexicalCategory) -> (r: Rule)
    ensures
        r@ == (RuleV { conds: seq![(i0 as int, v0@), (i1 as int, v1@)], category }),
{
    let r = Rule { conds: vec![(i0, v0.to_owned()), (i1, v1.to_owned())], category };
    proof {
        assert(r@.conds =~= seq![(i0 as int, v0@), (i1 as int, v1@)]);
        assert(r@ =~~= (RuleV { conds: seq![(i0 as int, v0@), (i1 as int, v1@)], category }));
    }
    r
}

fn rule3(
    i0: usize,
    v0: &str,
    i1: usize,
    v1: &str,
    i2: usize,
    v2: &str,
    category: LexicalCategory,
) -> (r: Rule)
    ensures
        r@ == (
        RuleV { conds: seq![(i0 as int, v0@), (i1 as int, v1@), (i2 as int, v2@)], category }),
{
    let r = Rule {
        conds: vec![(i0, v0.to_owned()), (i1, v1.to_owned()), (i2, v2.to_owned())],
        category,
    };
    proof {
        assert(r@.conds =~= seq![(i0 as int, v0@), (i1 as int, v1@), (i2 as int, v2@)]);
        assert(r@ =~~= (
        RuleV { conds: seq![(i0 as int, v0@), (i1 as int, v1@), (i2 as int, v2@)], category }));
    }
    r
}

fn rule4(
    i0: usize,
    v0: &str,
    i1: usize,
    v1: &str,
    i2: usize,
    v2: &str,
    i3: usize,
    v3: &str,
    category: LexicalCategory,
) -> (r: Rule)
    ensures
        r@ == (
        RuleV {
            conds: seq![(i0 as int, v0@), (i1 as int, v1@), (i2 as int, v2@), (i3 as int, v3@)],
            category,
        }),
{
    let r = Rule {
        conds: vec![
            (i0, v0.to_owned()),
            (i1, v1.to_owned()),
            (i2, v2.to_owned()),
            (i3, v3.to_owned()),
        ],
        category,
    };
    proof {
        assert(r@.conds =~= seq![
            (i0 as int, v0@),
            (i1 as int, v1@),
            (i2 as int, v2@),
            (i3 as int, v3@),
        ]);
        assert(r@ =~~= (
        RuleV {
            conds: seq![(i0 as int, v0@), (i1 as int, v1@), (i2 as int, v2@), (i3 as int, v3@)],
            category,
        }));
    }
    r
}

/// Whether one rule matches a tag tuple.
fn rule_matches(r: &Rule, tags: &Vec<String>) -> (b: bool)
    ensures
        b == spec_rule_matches(r@, tags.deep_view()),
{
    let ghost tv = tags.deep_view();
    let mut j: usize = 0;
    while j < r.conds.len()
        invariant
            tv == tags.deep_view(),
            tv.len() == tags@.len(),
            0 <= j <= r.conds@.len(),
            r@.conds.len() == r.conds@.len(),
            forall|k: int|
                0 <= k < j ==> {
                    &&& 0 <= (#[trigger] r@.conds[k]).0 < tv.len()
                    &&& tv[r@.conds[k].0] == r@.conds[k].1
                },
        decreases r.conds@.len() - j,
    {
        let idx = r.conds[j].0;
        proof {
            assert(r@.conds[j as int] == (r.conds@[j as int].0 as int, r.conds@[j as int].1@));
        }
        if idx >= tags.len() {
            assert(!spec_rule_matches(r@, tv));
            return false;
        }
        let ok = tags[idx] == r.conds[j].1;
        assert(tv[idx as int] == tags@[idx as int]@);
        if !ok {
            assert(!spec_rule_matches(r@, tv));
            return false;
        }
        j += 1;
    }
    true
}

/// Walks a rule table top to bottom and returns the first match's
/// category, or `Other`.
fn categorize_with(rules: &Vec<Rule>, tags: &Vec<String>) -> (c: LexicalCategory)
    ensures
        c == spec_first_match(rule_views(rules@), tags.deep_view()),
{
    let ghost rv = rule_views(rules@);
    let ghost tv = tags.deep_view();
    let mut t: usize = 0;
    proof {
        assert(rv.skip(0) =~= rv);
    }
    while t < rules.len()
        invariant
            rv == rule_views(rules@),
            tv == tags.deep_view(),
            rv.len() == rules@.len(),
            0 <= t <= rules@.len(),
            spec_first_match(rv.skip(t as int), tv) == spec_first_match(rv, tv),
        decreases rules@.len() - t,
    {
        proof {
            assert(rv.skip(t as int).first() == rv[t as int]);
            assert(rv[t as int] == rules@[t as int]@);
            assert(rv.skip(t as int).drop_first() =~= rv.skip(t + 1));
        }
        if rule_matches(&rules[t], tags) {
            return rules[t].category;
        }
        t += 1;
    }
    proof {
        assert(rv.skip(rules@.len() as int) =~= Seq::<RuleV>::empty());
    }
    LexicalCategory::Other
}

/// The rule table for the 9-field dictionary schema.  Field semantics:
/// 0 part of speech, 1 subtype, 4 inflection type, 5 inflection form.
pub open spec fn spec_rules_ipadic() -> Seq<RuleV> {
    seq![
        RuleV { conds: seq![(0int, "動詞"@)], category: LexicalCategory::Verb },
        RuleV {
            conds: seq![(0int, "名詞"@), (1int, "形容動詞語幹"@)],
            category: LexicalCategory::Keiyoudoushi,
        },
        RuleV { conds: seq![(0int, "名詞"@), (1int, "一般"@)], category: LexicalCategory::Noun },
        RuleV { conds: seq![(0int, "名詞"@), (1int, "数"@)], category: LexicalCategory::Noun },
        RuleV {
            conds: seq![(0int, "名詞"@), (1int, "副詞可能"@)],
            category: LexicalCategory::Noun,
        },
        RuleV {
            conds: seq![(0int, "名詞"@), (1int, "接尾"@)],
            category: LexicalCategory::NounSuffix,
        },
        RuleV {
            conds: seq![(0int, "名詞"@), (1int, "固有名詞"@)],
            category: LexicalCategory::ProperNoun,
        },
        RuleV {
            conds: seq![(0int, "名詞"@), (1int, "サ変接続"@)],
            category: LexicalCategory::SuruVerb,
        },
        RuleV { conds: seq![(0int, "名詞"@)], category: LexicalCategory::Noun },
        RuleV {
            conds: seq![(0int, "形容詞"@), (4int, "形容詞・イ段"@), (5int, "基本形"@)],
            category: LexicalCategory::AdjectiveIDictForm,
        },
        RuleV {
            conds: seq![(0int, "形容詞"@), (5int, "基本形"@)],
            category: LexicalCategory::AdjectiveIDictForm,
        },
        RuleV {
            conds: seq![(0int, "形容詞"@), (5int, "連用テ接続"@)],
            category: LexicalCategory::Adverb,
        },
        RuleV { conds: seq![(0int, "形容詞"@)], category: LexicalCategory::AdjectiveIConjForm },
        RuleV {
            conds: seq![(0int, "助動詞"@), (5int, "体言接続"@)],
            category: LexicalCategory::AttributiveParticle,
        },
        RuleV {
            conds: seq![(0int, "助動詞"@), (5int, "連用テ接続"@)],
            category: LexicalCategory::ContinuativeAuxiliary,
        },
        RuleV { conds: seq![(0int, "助動詞"@)], category: LexicalCategory::AuxiliaryVerb },
        RuleV {
            conds: seq![(0int, "助詞"@), (1int, "副詞化"@)],
            category: LexicalCategory::AdverbificationParticle,
        },
        RuleV {
            conds: seq![(0int, "助詞"@), (1int, "接続助詞"@)],
            category: LexicalCategory::ContinuativeParticle,
        },
        RuleV {
            conds: seq![(0int, "助詞"@), (1int, "連体化"@)],
            category: LexicalCategory::AdjectivisationParticle,
        },
        RuleV {
            conds: seq![(0int, "助詞"@), (1int, "格助詞"@)],
            category: LexicalCategory::CaseParticle,
        },
        RuleV {
            conds: seq![(0int, "助詞"@), (1int, "係助詞"@)],
            category: LexicalCategory::ConnectingParticle,
        },
        RuleV {
            conds: seq![(0int, "助詞"@), (1int, "副助詞"@)],
            category: LexicalCategory::Particle,
        },
        RuleV { conds: seq![(0int, "助詞"@)], category: LexicalCategory::Particle },
        RuleV { conds: seq![(0int, "副詞"@)], category: LexicalCategory::Adverb },
        RuleV { conds: seq![(0int, "記号"@), (1int, "句点"@)], category: LexicalCategory::Sign },
    ]
}

/// The rule table for the 17-field dictionary schema.  Field semantics:
/// 0 part of speech, 1 subtype, 5 inflection form, 7 lemma, 8 surface.
pub open spec fn spec_rules_unidic() -> Seq<RuleV> {
    seq![
        RuleV { conds: seq![(0int, "動詞"@)], category: LexicalCategory::Verb },
        RuleV { conds: seq![(0int, "名詞"@)], category: LexicalCategory::Noun },
        RuleV { conds: seq![(0int, "接頭辞"@)], category: LexicalCategory::Noun },
        RuleV { conds: seq![(0int, "形状詞"@)], category: LexicalCategory::Keiyoudoushi },
        RuleV {
            conds: seq![(0int, "助動詞"@), (5int, "連体形-一般"@), (8int, "な"@)],
            category: LexicalCategory::AttributiveParticle,
        },
        RuleV {
            conds: seq![(0int, "助動詞"@), (8int, "に"@)],
            category: LexicalCategory::AdverbificationParticle,
        },
        RuleV {
            conds: seq![(0int, "助動詞"@), (5int, "連用形-一般"@)],
            category: LexicalCategory::ContinuativeAuxiliary,
        },
        RuleV { conds: seq![(0int, "助動詞"@)], category: LexicalCategory::AuxiliaryVerb },
        RuleV {
            conds: seq![(0int, "助詞"@), (1int, "接続助詞"@), (8int, "て"@)],
            category: LexicalCategory::ContinuativeParticle,
        },
        RuleV {
            conds: seq![(0int, "助詞"@), (1int, "格助詞"@)],
            category: LexicalCategory::CaseParticle,
        },
        RuleV {
            conds: seq![(0int, "助詞"@), (1int, "係助詞"@)],
            category: LexicalCategory::ConnectingParticle,
        },
        RuleV {
            conds: seq![
                (0int, "形容詞"@),
                (1int, "非自立可能"@),
                (5int, "終止形-一般"@),
                (7int, "無い"@),
            ],
            category: LexicalCategory::NegationDictForm,
        },
        RuleV {
            conds: seq![
                (0int, "形容詞"@),
                (1int, "非自立可能"@),
                (5int, "連用形-一般"@),
                (7int, "無い"@),
            ],
            category: LexicalCategory::NegationConjForm,
        },
        RuleV {
            conds: seq![
                (0int, "形容詞"@),
                (1int, "非自立可能"@),
                (5int, "連用形-促音便"@),
                (7int, "無い"@),
            ],
            category: LexicalCategory::NegationConjForm,
        },
        RuleV {
            conds: seq![(0int, "形容詞"@), (5int, "終止形-一般"@)],
            category: LexicalCategory::AdjectiveIDictForm,
        },
        RuleV {
            conds: seq![(0int, "形容詞"@), (5int, "連用形-一般"@)],
            category: LexicalCategory::AdjectiveIConjForm,
        },
        RuleV {
            conds: seq![(0int, "形容詞"@), (5int, "連用形-促音便"@)],
            category: LexicalCategory::AdjectiveIConjForm,
        },
        RuleV { conds: seq![(0int, "補助記号"@)], category: LexicalCategory::Sign },
        RuleV { conds: seq![(0int, "副詞"@)], category: LexicalCategory::Adverb },
    ]
}

/// Builds the 9-field schema's table.
fn rules_ipadic() -> (rs: Vec<Rule>)
    ensures
        rule_views(rs@) == spec_rules_ipadic(),
{
    let mut rs: Vec<Rule> = Vec::new();
    rs.push(rule1(0, "動詞", LexicalCategory::Verb));
    rs.push(rule2(0, "名詞", 1, "形容動詞語幹", LexicalCategory::Keiyoudoushi));
    rs.push(rule2(0, "名詞", 1, "一般", LexicalCategory::Noun));
    rs.push(rule2(0, "名詞", 1, "数", LexicalCategory::Noun));
    rs.push(rule2(0, "名詞", 1, "副詞可能", LexicalCategory::Noun));
    rs.push(rule2(0, "名詞", 1, "接尾", LexicalCategory::NounSuffix));
    rs.push(rule2(0, "名詞", 1, "固有名詞", LexicalCategory::ProperNoun));
    rs.push(rule2(0, "名詞", 1, "サ変接続", LexicalCategory::SuruVerb));
    rs.push(rule1(0, "名詞", LexicalCategory::Noun));
    rs.push(
        rule3(0, "形容詞", 4, "形容詞・イ段", 5, "基本形", LexicalCategory::AdjectiveIDictForm),
    );
    rs.push(rule2(0, "形容詞", 5, "基本形", LexicalCategory::AdjectiveIDictForm));
    rs.push(rule2(0, "形容詞", 5, "連用テ接続", LexicalCategory::Adverb));
    rs.push(rule1(0, "形容詞", LexicalCategory::AdjectiveIConjForm));
    rs.push(rule2(0, "助動詞", 5, "体言接続", LexicalCategory::AttributiveParticle));
    rs.push(rule2(0, "助動詞", 5, "連用テ接続", LexicalCategory::ContinuativeAuxiliary));
    rs.push(rule1(0, "助動詞", LexicalCategory::AuxiliaryVerb));
    rs.push(rule2(0, "助詞", 1, "副詞化", LexicalCategory::AdverbificationParticle));
    rs.push(rule2(0, "助詞", 1, "接続助詞", LexicalCategory::ContinuativeParticle));
    rs.push(rule2(0, "助詞", 1, "連体化", LexicalCategory::AdjectivisationParticle));
    rs.push(rule2(0, "助詞", 1, "格助詞", LexicalCategory::CaseParticle));
    rs.push(rule2(0, "助詞", 1, "係助詞", LexicalCategory::ConnectingParticle));
    rs.push(rule2(0, "助詞", 1, "副助詞", LexicalCategory::Particle));
    rs.push(rule1(0, "助詞", LexicalCategory::Particle));
    rs.push(rule1(0, "副詞", LexicalCategory::Adverb));
    rs.push(rule2(0, "記号", 1, "句点", LexicalCategory::Sign));
    proof {
        assert(rule_views(rs@) =~~= spec_rules_ipadic());
    }
    rs
}

/// Builds the 17-field schema's table.
fn rules_unidic() -> (rs: Vec<Rule>)
    ensures
        rule_views(rs@) == spec_rules_unidic(),
{
    let mut rs: Vec<Rule> = Vec::new();
    rs.push(rule1(0, "動詞", LexicalCategory::Verb));
    rs.push(rule1(0, "名詞", LexicalCategory::Noun));
    rs.push(rule1(0, "接頭辞", LexicalCategory::Noun));
    rs.push(rule1(0, "形状詞", LexicalCategory::Keiyoudoushi));
    rs.push(rule3(0, "助動詞", 5, "連体形-一般", 8, "な", LexicalCategory::AttributiveParticle));
    rs.push(rule2(0, "助動詞", 8, "に", LexicalCategory::AdverbificationParticle));
    rs.push(rule2(0, "助動詞", 5, "連用形-一般", LexicalCategory::ContinuativeAuxiliary));
    rs.push(rule1(0, "助動詞", LexicalCategory::AuxiliaryVerb));
    rs.push(rule3(0, "助詞", 1, "接続助詞", 8, "て", LexicalCategory::ContinuativeParticle));
    rs.push(rule2(0, "助詞", 1, "格助詞", LexicalCategory::CaseParticle));
    rs.push(rule2(0, "助詞", 1, "係助詞", LexicalCategory::ConnectingParticle));
    rs.push(
        rule4(
            0,
            "形容詞",
            1,
            "非自立可能",
            5,
            "終止形-一般",
            7,
            "無い",
            LexicalCategory::NegationDictForm,
        ),
    );
    rs.push(
        rule4(
            0,
            "形容詞",
            1,
            "非自立可能",
            5,
            "連用形-一般",
            7,
            "無い",
            LexicalCategory::NegationConjForm,
        ),
    );
    rs.push(
        rule4(
            0,
            "形容詞",
            1,
            "非自立可能",
            5,
            "連用形-促音便",
            7,
            "無い",
            LexicalCategory::NegationConjForm,
        ),
    );
    rs.push(rule2(0, "形容詞", 5, "終止形-一般", LexicalCategory::AdjectiveIDictForm));
    rs.push(rule2(0, "形容詞", 5, "連用形-一般", LexicalCategory::AdjectiveIConjForm));
    rs.push(rule2(0, "形容詞", 5, "連用形-促音便", LexicalCategory::AdjectiveIConjForm));
    rs.push(rule1(0, "補助記号", LexicalCategory::Sign));
    rs.push(rule1(0, "副詞", LexicalCategory::Adverb));
    proof {
        assert(rule_views(rs@) =~~= spec_rules_unidic());
    }
    rs
}

/// The category a tag tuple denotes: the schema is chosen once by the
/// tuple's length, then its table is walked top to bottom; an unknown
/// schema, like an unmatched tuple, is `Other`.
pub open spec fn spec_categorize(tags: Seq<Seq<char>>) -> LexicalCategory {
    if tags.len() == 9 {
        spec_first_match(spec_rules_ipadic(), tags)
    } else if tags.len() == 17 {
        spec_first_match(spec_rules_unidic(), tags)
    } else {
        LexicalCategory::Other
    }
}

/// Maps a grammatical tag tuple to its lexical category.
pub fn categorize(tags: &Vec<String>) -> (c: LexicalCategory)
    ensures
        c == spec_categorize(tags.deep_view()),
{
    if tags.len() == 9 {
        let rules = rules_ipadic();
        categorize_with(&rules, tags)
    } else if tags.len() == 17 {
        let rules = rules_unidic();
        categorize_with(&rules, tags)
    } else {
        LexicalCategory::Other
    }
}

/// Categorization determinism: the category is a function of the tag
/// tuple alone — identical tuples always receive identical categories.
pub proof fn lemma_categorize_deterministic(t1: Seq<Seq<char>>, t2: Seq<Seq<char>>)
    requires
        t1 == t2,
    ensures
        spec_categorize(t1) == spec_categorize(t2),
{
}

/// A morpheme as the categorization service returns it: the surface form,
/// the dictionary form, and the resolved category.
pub struct CategorizedMorpheme {
    pub text: String,
    pub dict_form: String,
    pub category: LexicalCategory,
}

/// The mathematical image of a categorized morpheme.
pub ghost struct CategorizedMorphemeV {
    pub text: Seq<char>,
    pub dict_form: Seq<char>,
    pub category: LexicalCategory,
}

impl View for CategorizedMorpheme {
    type V = CategorizedMorphemeV;

    open spec fn view(&self) -> CategorizedMorphemeV {
        CategorizedMorphemeV {
            text: self.text@,
            dict_form: self.dict_form@,
            category: self.category,
        }
    }
}

/// The views of a sequence of categorized morphemes.
pub open spec fn cm_views(ms: Seq<CategorizedMorpheme>) -> Seq<CategorizedMorphemeV> {
    ms.map_values(|m: CategorizedMorpheme| m@)
}

/// What one token's detail tuple yields: only the 17-field schema carries
/// the surface form (field 8) and dictionary form (field 10) this service
/// reports; any other arity is dropped.
pub open spec fn spec_categorize_details(d: Seq<Seq<char>>) -> Option<CategorizedMorphemeV> {
    if d.len() != 17 {
        None
    } else {
        Some(
            CategorizedMorphemeV { text: d[8], dict_form: d[10], category: spec_categorize(d) },
        )
    }
}

/// Builds one categorized morpheme from a token's detail tuple.
pub fn categorize_details(details: &Vec<String>) -> (r: Option<CategorizedMorpheme>)
    ensures
        match r {
            Some(m) => spec_categorize_details(details.deep_view()) == Some(m@),
            None => spec_categorize_details(details.deep_view()) is None,
        },
{
    let ghost dv = details.deep_view();
    if details.len() != 17 {
        return None;
    }
    let category = categorize(details);
    assert(details@[8]@ == dv[8] && details@[10]@ == dv[10]);
    Some(
        CategorizedMorpheme { text: details[8].clone(), dict_form: details[10].clone(), category },
    )
}

/// The morphemes of a whole analyzer response, in order, tuples of an
/// unknown schema dropped.
pub open spec fn spec_morphemes(ds: Seq<Seq<Seq<char>>>) -> Seq<CategorizedMorphemeV>
    decreases ds.len(),
{
    if ds.len() == 0 {
        Seq::empty()
    } else {
        spec_morphemes(ds.drop_last()) + match spec_categorize_details(ds.last()) {
            Some(m) => seq![m],
            None => Seq::empty(),
        }
    }
}

/// Categorizes a whole analyzer response: one categorized morpheme per
/// token whose detail tuple the active schema explains.
pub fn morphemes(detail_lists: &Vec<Vec<String>>) -> (ms: Vec<CategorizedMorpheme>)
    ensures
        cm_views(ms@) == spec_morphemes(detail_lists.deep_view()),
{
    let ghost dv = detail_lists.deep_view();
    let mut ms: Vec<CategorizedMorpheme> = Vec::new();
    let mut i: usize = 0;
    proof {
        assert(cm_views(ms@) =~= spec_morphemes(dv.take(0)));
    }
    while i < detail_lists.len()
        invariant
            dv == detail_lists.deep_view(),
            dv.len() == detail_lists@.len(),
            0 <= i <= detail_lists@.len(),
            cm_views(ms@) == spec_morphemes(dv.take(i as int)),
        decreases detail_lists@.len() - i,
    {
        proof {
            assert(dv.take(i + 1).drop_last() =~= dv.take(i as int));
            assert(dv.take(i + 1).last() == dv[i as int]);
            assert(detail_lists@[i as int].deep_view() == dv[i as int]);
        }
        let ghost old_ms = cm_views(ms@);
        match categorize_details(&detail_lists[i]) {
            Some(m) => {
                ms.push(m);
                proof {
                    assert(cm_views(ms@) =~= old_ms.push(ms@.last()@));
                }
            },
            None => {},
        }
        proof {
            assert(cm_views(ms@) =~= spec_morphemes(dv.take(i + 1)));
        }
        i += 1;
    }
    proof {
        assert(dv.take(detail_lists@.len() as int) =~= dv);
    }
    ms
}

} // verus!

