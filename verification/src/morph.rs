//! Morpheme extraction from the analyzer's 17-field detail tuples.
//!
//! The 17-field dictionary schema carries, among others: part-of-speech
//! classifications in fields 0–3 (narrowing left to right, `*` for
//! unused levels), inflection type and form in fields 4 and 5, the
//! lemma's reading in field 6, the lemma in field 7, and the surface form
//! in field 8.

use vstd::prelude::*;

verus! {

/// One analyzed morpheme with its grammatical readings, the unused
/// (`*`) inflection fields dropped.
pub struct Morpheme {
    pub text: String,
    pub lemma: String,
    pub pronounciation: String,
    pub part_of_speech: String,
    pub inflection_type: Option<String>,
    pub inflection_form: Option<String>,
}

/// The mathematical image of a morpheme.
pub ghost struct MorphemeV {
    pub text: Seq<char>,
    pub lemma: Seq<char>,
    pub pronounciation: Seq<char>,
    pub part_of_speech: Seq<char>,
    pub inflection_type: Option<Seq<char>>,
    pub inflection_form: Option<Seq<char>>,
}

impl View for Morpheme {
    type V = MorphemeV;

    open spec fn view(&self) -> MorphemeV {
        MorphemeV {
            text: self.text@,
            lemma: self.lemma@,
            pronounciation: self.pronounciation@,
            part_of_speech: self.part_of_speech@,
            inflection_type: match self.inflection_type {
                Some(ref s) => Some(s@),
                None => None,
            },
            inflection_form: match self.inflection_form {
                Some(ref s) => Some(s@),
                None => None,
            },
        }
    }
}

/// The longest `*`-free prefix: the part-of-speech levels actually in
/// use.
pub open spec fn spec_pos_parts(d: Seq<Seq<char>>) -> Seq<Seq<char>>
    decreases d.len(),
{
    if d.len() == 0 {
        Seq::empty()
    } else if d.first() == "*"@ {
        Seq::empty()
    } else {
        seq![d.first()] + spec_pos_parts(d.drop_first())
    }
}

/// The parts joined with `-`.
pub open spec fn spec_join_dash(parts: Seq<Seq<char>>) -> Seq<char>
    decreases parts.len(),
{
    if parts.len() == 0 {
        Seq::empty()
    } else if parts.len() == 1 {
        parts[0]
    } else {
        spec_join_dash(parts.drop_last()) + "-"@ + parts.last()
    }
}

proof fn lemma_pos_parts(d: Seq<Seq<char>>)
    ensures
        spec_pos_parts(d).len() <= d.len(),
        forall|j: int|
            0 <= j < spec_pos_parts(d).len() ==> #[trigger] spec_pos_parts(d)[j] == d[j] && d[j]
                != "*"@,
        spec_pos_parts(d).len() < d.len() ==> d[spec_pos_parts(d).len() as int] == "*"@,
    decreases d.len(),
{
    if d.len() > 0 && d.first() != "*"@ {
        lemma_pos_parts(d.drop_first());
        let parts = spec_pos_parts(d);
        let rest = spec_pos_parts(d.drop_first());
        assert forall|j: int| 0 <= j < parts.len() implies #[trigger] parts[j] == d[j] && d[j]
            != "*"@ by {
            if j > 0 {
                assert(parts[j] == rest[j - 1]);
                assert(d.drop_first()[j - 1] == d[j]);
            }
        }
        if parts.len() < d.len() {
            assert(d.drop_first()[rest.len() as int] == d[parts.len() as int]);
        }
    }
}

/// What the morpheme of a 17-field detail tuple is; tuples of any other
/// arity carry no morpheme.
pub open spec fn spec_categorize(d: Seq<Seq<char>>) -> Option<MorphemeV> {
    if d.len() != 17 {
        None
    } else {
        Some(
            MorphemeV {
                text: d[8],
                lemma: d[7],
                pronounciation: d[6],
                part_of_speech: spec_join_dash(spec_pos_parts(d.take(4))),
                inflection_type: if d[4] == "*"@ {
                    None
                } else {
                    Some(d[4])
                },
                inflection_form: if d[5] == "*"@ {
                    None
                } else {
                    Some(d[5])
                },
            },
        )
    }
}

/// Extracts the morpheme a detail tuple describes: its surface form,
/// lemma, reading, the `-`-joined part-of-speech levels, and the
/// inflection fields when the dictionary filled them.
pub fn categorize(details: &Vec<String>) -> (r: Option<Morpheme>)
    ensures
        match r {
            Some(m) => spec_categorize(details.deep_view()) == Some(m@),
            None => spec_categorize(details.deep_view()) is None,
        },
{
    let ghost dv = details.deep_view();
    if details.len() != 17 {
        return None;
    }
    assert(forall|j: int| 0 <= j < 17 ==> #[trigger] dv[j] == details@[j]@);
    let star = String::from_str("*");

    let ghost parts = spec_pos_parts(dv.take(4));
    proof {
        lemma_pos_parts(dv.take(4));
    }
    let mut pos = String::new();
    let mut k: usize = 0;
    proof {
        assert(parts.take(0) =~= Seq::<Seq<char>>::empty());
    }
    while k < 4
        invariant
            dv == details.deep_view(),
            dv.len() == details@.len() == 17,
            star@ == "*"@,
            parts == spec_pos_parts(dv.take(4)),
            parts.len() <= 4,
            forall|j: int|
                0 <= j < parts.len() ==> #[trigger] parts[j] == dv.take(4)[j] && dv.take(4)[j]
                    != "*"@,
            parts.len() < 4 ==> dv.take(4)[parts.len() as int] == "*"@,
            0 <= k <= parts.len(),
            pos@ == spec_join_dash(parts.take(k as int)),
        ensures
            k == parts.len(),
            pos@ == spec_join_dash(parts.take(k as int)),
        decreases 4 - k,
    {
        proof {
            assert(dv.take(4)[k as int] == dv[k as int]);
            assert(dv[k as int] == details@[k as int]@);
        }
        if details[k] == star {
            proof {
                assert(dv[k as int] == "*"@);
                if k < parts.len() {
                    assert(parts[k as int] == dv.take(4)[k as int]);
                    assert(false);
                }
            }
            break;
        }
        proof {
            assert(dv[k as int] != "*"@);
            assert(k < parts.len()) by {
                if parts.len() < 4 && parts.len() <= k {
                    assert(dv.take(4)[parts.len() as int] == "*"@);
                    assert(dv[k as int] != "*"@);
                }
            }
            assert(parts.take(k + 1).drop_last() =~= parts.take(k as int));
            assert(parts.take(k + 1).last() == parts[k as int]);
            assert(parts[k as int] == dv[k as int]);
        }
        if k > 0 {
            pos.append("-");
        }
        pos.append(details[k].as_str());
        proof {
            if k == 0 {
                assert(pos@ =~= spec_join_dash(parts.take(1)));
            } else {
                assert(parts.take(k + 1).len() >= 2);
                assert(pos@ =~= spec_join_dash(parts.take(k + 1)));
            }
        }
        k += 1;
    }
    proof {
        assert(k == parts.len());
        assert(parts.take(parts.len() as int) =~= parts);
    }

    let inflection_type = if details[4] == star {
        None
    } else {
        Some(details[4].clone())
    };
    let inflection_form = if details[5] == star {
        None
    } else {
        Some(details[5].clone())
    };
    Some(
        Morpheme {
            text: details[8].clone(),
            lemma: details[7].clone(),
            pronounciation: details[6].clone(),
            part_of_speech: pos,
            inflection_type,
            inflection_form,
        },
    )
}

} // verus!
