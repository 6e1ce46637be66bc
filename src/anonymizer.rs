//! Anonymization templates: which tags to change, and how.
use vstd::prelude::*;
use vstd::string::StrSliceExecFns;

verus! {

/// What a rule does to its tag.
#[derive(Debug, Clone)]
pub enum AnonymizationAction {
    /// Delete the element.
    Remove,
    /// Keep the element with an empty value.
    Blank,
    /// Set the value to this text.
    Replace(String),
    /// Replace the value by a digest of it.
    Hash,
    /// Replace the value by a newly generated UID.
    GenerateUID,
    /// Add one to a numeric value.
    Increment,
}

/// One rule: a tag written "(gggg,eeee)" and its action.
#[derive(Debug, Clone)]
pub struct AnonymizationRule {
    pub tag: String,
    pub action: AnonymizationAction,
}

#[derive(Debug, Clone)]
pub struct AnonymizationTemplate {
    pub name: String,
    pub description: String,
    pub rules: Vec<AnonymizationRule>,
}

/// The characters of a tag string once its parentheses and comma are gone.
pub open spec fn tag_digits(s: Seq<char>) -> Seq<char> {
    s.filter(|c: char| c != '(' && c != ')' && c != ',')
}

pub open spec fn hex_value(c: char) -> Option<int> {
    if '0' <= c && c <= '9' {
        Some(c as int - '0' as int)
    } else if 'a' <= c && c <= 'f' {
        Some(c as int - 'a' as int + 10)
    } else if 'A' <= c && c <= 'F' {
        Some(c as int - 'A' as int + 10)
    } else {
        None
    }
}

/// The number that four hexadecimal digits from `at` write.
pub open spec fn hex4(d: Seq<char>, at: int) -> Option<u16> {
    match (hex_value(d[at]), hex_value(d[at + 1]), hex_value(d[at + 2]), hex_value(d[at + 3])) {
        (Some(a), Some(b), Some(c), Some(e)) => Some((a * 4096 + b * 256 + c * 16 + e) as u16),
        _ => None,
    }
}

/// The (group, element) a tag string names: eight hexadecimal digits once
/// parentheses and commas are dropped.
pub open spec fn tag_of(s: Seq<char>) -> Option<(u16, u16)> {
    let d = tag_digits(s);
    if d.len() != 8 {
        None
    } else {
        match (hex4(d, 0), hex4(d, 4)) {
            (Some(g), Some(e)) => Some((g, e)),
            _ => None,
        }
    }
}

/// A tag written "(gggg,eeee)" with hexadecimal digits.
pub open spec fn tag_shaped(s: Seq<char>) -> bool {
    &&& s.len() == 11
    &&& s[0] == '(' && s[5] == ',' && s[10] == ')'
    &&& hex_value(s[1]) is Some && hex_value(s[2]) is Some && hex_value(s[3]) is Some && hex_value(s[4]) is Some
    &&& hex_value(s[6]) is Some && hex_value(s[7]) is Some && hex_value(s[8]) is Some && hex_value(s[9]) is Some
}

pub proof fn lemma_tag_shaped(s: Seq<char>)
    requires
        tag_shaped(s),
    ensures
        tag_of(s) == Some((
            hex4(seq![s[1], s[2], s[3], s[4]], 0)->Some_0,
            hex4(seq![s[6], s[7], s[8], s[9]], 0)->Some_0,
        )),
{
    reveal_with_fuel(Seq::filter, 12);
    let f = |c: char| c != '(' && c != ')' && c != ',';
    let d = seq![s[1], s[2], s[3], s[4], s[6], s[7], s[8], s[9]];
    assert(s.drop_last() =~= s.subrange(0, 10));
    assert(s.subrange(0, 10).drop_last() =~= s.subrange(0, 9));
    assert(s.subrange(0, 9).drop_last() =~= s.subrange(0, 8));
    assert(s.subrange(0, 8).drop_last() =~= s.subrange(0, 7));
    assert(s.subrange(0, 7).drop_last() =~= s.subrange(0, 6));
    assert(s.subrange(0, 6).drop_last() =~= s.subrange(0, 5));
    assert(s.subrange(0, 5).drop_last() =~= s.subrange(0, 4));
    assert(s.subrange(0, 4).drop_last() =~= s.subrange(0, 3));
    assert(s.subrange(0, 3).drop_last() =~= s.subrange(0, 2));
    assert(s.subrange(0, 2).drop_last() =~= s.subrange(0, 1));
    assert(s.subrange(0, 1).drop_last() =~= Seq::<char>::empty());
    assert(s.subrange(0, 1).filter(f) =~= Seq::<char>::empty());
    assert(s.subrange(0, 5).filter(f) =~= seq![s[1], s[2], s[3], s[4]]);
    assert(s.subrange(0, 6).filter(f) =~= seq![s[1], s[2], s[3], s[4]]);
    assert(s.subrange(0, 10).filter(f) =~= d);
    assert(s.filter(f) =~= d);
    assert(tag_digits(s) =~= d);
}

fn hex_digit(c: char) -> (r: Option<u16>)
    ensures
        match hex_value(c) {
            Some(v) => r == Some(v as u16) && 0 <= v < 16,
            None => r is None,
        },
{
    if '0' <= c && c <= '9' {
        Some((c as u32 - '0' as u32) as u16)
    } else if 'a' <= c && c <= 'f' {
        Some((c as u32 - 'a' as u32 + 10) as u16)
    } else if 'A' <= c && c <= 'F' {
        Some((c as u32 - 'A' as u32 + 10) as u16)
    } else {
        None
    }
}

fn hex_group(d: &Vec<char>, at: usize) -> (r: Option<u16>)
    requires
        at + 4 <= d@.len() <= 8,
    ensures
        r == hex4(d@, at as int),
{
    let a = match hex_digit(d[at]) { Some(v) => v, None => { return None; } };
    let b = match hex_digit(d[at + 1]) { Some(v) => v, None => { return None; } };
    let c = match hex_digit(d[at + 2]) { Some(v) => v, None => { return None; } };
    let e = match hex_digit(d[at + 3]) { Some(v) => v, None => { return None; } };
    Some(a * 4096 + b * 256 + c * 16 + e)
}

/// Reads a tag string such as "(0010,0010)" into its group and element.
pub fn parse_tag_string(tag_str: &str) -> (r: Option<(u16, u16)>)
    ensures
        r == tag_of(tag_str@),
{
    let n = tag_str.unicode_len();
    let mut d: Vec<char> = Vec::new();
    let mut i: usize = 0;
    proof {
        reveal(Seq::filter);
        assert(tag_str@.subrange(0, 0) =~= Seq::<char>::empty());
    }
    while i < n
        invariant
            n == tag_str@.len(),
            i <= n,
            d@ == tag_digits(tag_str@.subrange(0, i as int)),
        decreases n - i,
    {
        let c = tag_str.get_char(i);
        proof {
            reveal(Seq::filter);
            let pre = tag_str@.subrange(0, i + 1);
            assert(pre.drop_last() =~= tag_str@.subrange(0, i as int));
            assert(pre.last() == c);
        }
        if c != '(' && c != ')' && c != ',' {
            d.push(c);
        }
        i = i + 1;
    }
    assert(tag_str@.subrange(0, n as int) =~= tag_str@);
    if d.len() != 8 {
        return None;
    }
    match (hex_group(&d, 0), hex_group(&d, 4)) {
        (Some(g), Some(e)) => Some((g, e)),
        _ => None,
    }
}

/// The rules of the Basic template, in order.
pub open spec fn basic_rules(r: Seq<AnonymizationRule>) -> bool {
    &&& r.len() == 3
    &&& r[0].tag@ == "(0010,0010)"@ && (r[0].action matches AnonymizationAction::Replace(t) && t@ == "ANONYMOUS"@)
    &&& r[1].tag@ == "(0010,0020)"@ && r[1].action == AnonymizationAction::Hash
    &&& r[2].tag@ == "(0010,0030)"@ && r[2].action == AnonymizationAction::Blank
}

/// The rules of the Full template, in order.
pub open spec fn full_rules(r: Seq<AnonymizationRule>) -> bool {
    &&& r.len() == 34
    &&& r[0].tag@ == "(0010,0010)"@ && (r[0].action matches AnonymizationAction::Replace(t) && t@ == "ANONYMOUS"@)
    &&& r[1].tag@ == "(0010,0020)"@ && r[1].action == AnonymizationAction::Hash
    &&& r[2].tag@ == "(0010,0030)"@ && r[2].action == AnonymizationAction::Blank
    &&& r[3].tag@ == "(0010,0032)"@ && r[3].action == AnonymizationAction::Remove
    &&& r[4].tag@ == "(0010,0040)"@ && r[4].action == AnonymizationAction::Blank
    &&& r[5].tag@ == "(0010,1000)"@ && r[5].action == AnonymizationAction::Remove
    &&& r[6].tag@ == "(0010,1001)"@ && r[6].action == AnonymizationAction::Remove
    &&& r[7].tag@ == "(0010,1010)"@ && r[7].action == AnonymizationAction::Blank
    &&& r[8].tag@ == "(0010,1020)"@ && r[8].action == AnonymizationAction::Remove
    &&& r[9].tag@ == "(0010,1030)"@ && r[9].action == AnonymizationAction::Remove
    &&& r[10].tag@ == "(0010,1040)"@ && r[10].action == AnonymizationAction::Remove
    &&& r[11].tag@ == "(0010,2154)"@ && r[11].action == AnonymizationAction::Remove
    &&& r[12].tag@ == "(0010,21B0)"@ && r[12].action == AnonymizationAction::Remove
    &&& r[13].tag@ == "(0010,4000)"@ && r[13].action == AnonymizationAction::Remove
    &&& r[14].tag@ == "(0008,0090)"@ && r[14].action == AnonymizationAction::Blank
    &&& r[15].tag@ == "(0008,1048)"@ && r[15].action == AnonymizationAction::Remove
    &&& r[16].tag@ == "(0008,1050)"@ && r[16].action == AnonymizationAction::Blank
    &&& r[17].tag@ == "(0008,1070)"@ && r[17].action == AnonymizationAction::Blank
    &&& r[18].tag@ == "(0008,0080)"@ && r[18].action == AnonymizationAction::Blank
    &&& r[19].tag@ == "(0008,0081)"@ && r[19].action == AnonymizationAction::Remove
    &&& r[20].tag@ == "(0008,1040)"@ && r[20].action == AnonymizationAction::Remove
    &&& r[21].tag@ == "(0020,000D)"@ && r[21].action == AnonymizationAction::GenerateUID
    &&& r[22].tag@ == "(0020,000E)"@ && r[22].action == AnonymizationAction::GenerateUID
    &&& r[23].tag@ == "(0008,0018)"@ && r[23].action == AnonymizationAction::GenerateUID
    &&& r[24].tag@ == "(0008,0020)"@ && r[24].action == AnonymizationAction::Blank
    &&& r[25].tag@ == "(0008,0021)"@ && r[25].action == AnonymizationAction::Blank
    &&& r[26].tag@ == "(0008,0022)"@ && r[26].action == AnonymizationAction::Blank
    &&& r[27].tag@ == "(0008,0023)"@ && r[27].action == AnonymizationAction::Blank
    &&& r[28].tag@ == "(0008,0030)"@ && r[28].action == AnonymizationAction::Blank
    &&& r[29].tag@ == "(0008,0031)"@ && r[29].action == AnonymizationAction::Blank
    &&& r[30].tag@ == "(0008,0032)"@ && r[30].action == AnonymizationAction::Blank
    &&& r[31].tag@ == "(0008,0033)"@ && r[31].action == AnonymizationAction::Blank
    &&& r[32].tag@ == "(0008,1010)"@ && r[32].action == AnonymizationAction::Blank
    &&& r[33].tag@ == "(0018,1000)"@ && r[33].action == AnonymizationAction::Remove
}

/// The rules of the Research template, in order.
pub open spec fn research_rules(r: Seq<AnonymizationRule>) -> bool {
    &&& r.len() == 19
    &&& r[0].tag@ == "(0010,0010)"@ && r[0].action == AnonymizationAction::Hash
    &&& r[1].tag@ == "(0010,0020)"@ && r[1].action == AnonymizationAction::Hash
    &&& r[2].tag@ == "(0010,0030)"@ && r[2].action == AnonymizationAction::Blank
    &&& r[3].tag@ == "(0010,0032)"@ && r[3].action == AnonymizationAction::Remove
    &&& r[4].tag@ == "(0010,1010)"@ && r[4].action == AnonymizationAction::Blank
    &&& r[5].tag@ == "(0010,1040)"@ && r[5].action == AnonymizationAction::Remove
    &&& r[6].tag@ == "(0010,2154)"@ && r[6].action == AnonymizationAction::Remove
    &&& r[7].tag@ == "(0010,4000)"@ && r[7].action == AnonymizationAction::Remove
    &&& r[8].tag@ == "(0008,0090)"@ && r[8].action == AnonymizationAction::Blank
    &&& r[9].tag@ == "(0008,1048)"@ && r[9].action == AnonymizationAction::Remove
    &&& r[10].tag@ == "(0008,1050)"@ && r[10].action == AnonymizationAction::Blank
    &&& r[11].tag@ == "(0008,1070)"@ && r[11].action == AnonymizationAction::Blank
    &&& r[12].tag@ == "(0008,0080)"@ && r[12].action == AnonymizationAction::Blank
    &&& r[13].tag@ == "(0008,0081)"@ && r[13].action == AnonymizationAction::Remove
    &&& r[14].tag@ == "(0008,0020)"@ && r[14].action == AnonymizationAction::Blank
    &&& r[15].tag@ == "(0008,0021)"@ && r[15].action == AnonymizationAction::Blank
    &&& r[16].tag@ == "(0008,0030)"@ && r[16].action == AnonymizationAction::Blank
    &&& r[17].tag@ == "(0008,0031)"@ && r[17].action == AnonymizationAction::Blank
    &&& r[18].tag@ == "(0018,1000)"@ && r[18].action == AnonymizationAction::Remove
}

/// The Research template keeps study relationships and patient sex: no rule
/// regenerates a UID or touches the study, series or instance UID or the
/// patient's sex, and patient name and id are hashed.
pub proof fn lemma_research_preserves_relationships(r: Seq<AnonymizationRule>)
    requires
        research_rules(r),
    ensures
        forall|i: int| 0 <= i < r.len() ==> (#[trigger] r[i]).action != AnonymizationAction::GenerateUID,
        forall|i: int|
            0 <= i < r.len() ==> (#[trigger] r[i]).tag@ != "(0020,000D)"@ && r[i].tag@ != "(0020,000E)"@
                && r[i].tag@ != "(0008,0018)"@ && r[i].tag@ != "(0010,0040)"@,
        r[0].tag@ == "(0010,0010)"@ && r[0].action == AnonymizationAction::Hash,
        r[1].tag@ == "(0010,0020)"@ && r[1].action == AnonymizationAction::Hash,
{
    reveal_strlit("(0008,0020)");
    reveal_strlit("(0008,0021)");
    reveal_strlit("(0008,0030)");
    reveal_strlit("(0008,0031)");
    reveal_strlit("(0008,0080)");
    reveal_strlit("(0008,0081)");
    reveal_strlit("(0008,0090)");
    reveal_strlit("(0008,1048)");
    reveal_strlit("(0008,1050)");
    reveal_strlit("(0008,1070)");
    reveal_strlit("(0010,0010)");
    reveal_strlit("(0010,0020)");
    reveal_strlit("(0010,0030)");
    reveal_strlit("(0010,0032)");
    reveal_strlit("(0010,1010)");
    reveal_strlit("(0010,1040)");
    reveal_strlit("(0010,2154)");
    reveal_strlit("(0010,4000)");
    reveal_strlit("(0018,1000)");
    reveal_strlit("(0020,000D)");
    reveal_strlit("(0020,000E)");
    reveal_strlit("(0008,0018)");
    reveal_strlit("(0010,0040)");
    assert forall|i: int| 0 <= i < r.len() implies (#[trigger] r[i]).tag@ != "(0020,000D)"@ && r[i].tag@
        != "(0020,000E)"@ && r[i].tag@ != "(0008,0018)"@ && r[i].tag@ != "(0010,0040)"@ by {
        assert(r[i].tag@[8] != "(0020,000D)"@[8] || r[i].tag@[9] != "(0020,000D)"@[9] || r[i].tag@[2] != "(0020,000D)"@[2] || r[i].tag@[3] != "(0020,000D)"@[3] || r[i].tag@[7] != "(0020,000D)"@[7]);
        assert(r[i].tag@[8] != "(0020,000E)"@[8] || r[i].tag@[9] != "(0020,000E)"@[9] || r[i].tag@[2] != "(0020,000E)"@[2] || r[i].tag@[3] != "(0020,000E)"@[3] || r[i].tag@[7] != "(0020,000E)"@[7]);
        assert(r[i].tag@[8] != "(0008,0018)"@[8] || r[i].tag@[9] != "(0008,0018)"@[9] || r[i].tag@[2] != "(0008,0018)"@[2] || r[i].tag@[3] != "(0008,0018)"@[3] || r[i].tag@[4] != "(0008,0018)"@[4] || r[i].tag@[7] != "(0008,0018)"@[7]);
        assert(r[i].tag@[8] != "(0010,0040)"@[8] || r[i].tag@[9] != "(0010,0040)"@[9] || r[i].tag@[2] != "(0010,0040)"@[2] || r[i].tag@[3] != "(0010,0040)"@[3] || r[i].tag@[7] != "(0010,0040)"@[7] || r[i].tag@[6] != "(0010,0040)"@[6]);
    }
}

/// Every rule's tag is written "(gggg,eeee)", so it parses.
pub proof fn lemma_tags_parse(r: Seq<AnonymizationRule>)
    requires
        forall|i: int| 0 <= i < r.len() ==> tag_shaped(#[trigger] r[i].tag@),
    ensures
        forall|i: int| 0 <= i < r.len() ==> tag_of(#[trigger] r[i].tag@) is Some,
{
    assert forall|i: int| 0 <= i < r.len() implies tag_of(#[trigger] r[i].tag@) is Some by {
        lemma_tag_shaped(r[i].tag@);
    }
}

pub proof fn lemma_basic_rules_shaped(r: Seq<AnonymizationRule>)
    requires
        basic_rules(r),
    ensures
        forall|i: int| 0 <= i < r.len() ==> tag_shaped(#[trigger] r[i].tag@),
{
    reveal_strlit("(0010,0010)");
    reveal_strlit("(0010,0020)");
    reveal_strlit("(0010,0030)");
    assert forall|i: int| 0 <= i < r.len() implies tag_shaped(#[trigger] r[i].tag@) by {
        if i == 0 {
        } else if i == 1 {
        } else if i == 2 {
        }
    }
}

pub proof fn lemma_full_rules_shaped(r: Seq<AnonymizationRule>)
    requires
        full_rules(r),
    ensures
        forall|i: int| 0 <= i < r.len() ==> tag_shaped(#[trigger] r[i].tag@),
{
    reveal_strlit("(0008,0018)");
    reveal_strlit("(0008,0020)");
    reveal_strlit("(0008,0021)");
    reveal_strlit("(0008,0022)");
    reveal_strlit("(0008,0023)");
    reveal_strlit("(0008,0030)");
    reveal_strlit("(0008,0031)");
    reveal_strlit("(0008,0032)");
    reveal_strlit("(0008,0033)");
    reveal_strlit("(0008,0080)");
    reveal_strlit("(0008,0081)");
    reveal_strlit("(0008,0090)");
    reveal_strlit("(0008,1010)");
    reveal_strlit("(0008,1040)");
    reveal_strlit("(0008,1048)");
    reveal_strlit("(0008,1050)");
    reveal_strlit("(0008,1070)");
    reveal_strlit("(0010,0010)");
    reveal_strlit("(0010,0020)");
    reveal_strlit("(0010,0030)");
    reveal_strlit("(0010,0032)");
    reveal_strlit("(0010,0040)");
    reveal_strlit("(0010,1000)");
    reveal_strlit("(0010,1001)");
    reveal_strlit("(0010,1010)");
    reveal_strlit("(0010,1020)");
    reveal_strlit("(0010,1030)");
    reveal_strlit("(0010,1040)");
    reveal_strlit("(0010,2154)");
    reveal_strlit("(0010,21B0)");
    reveal_strlit("(0010,4000)");
    reveal_strlit("(0018,1000)");
    reveal_strlit("(0020,000D)");
    reveal_strlit("(0020,000E)");
    assert forall|i: int| 0 <= i < r.len() implies tag_shaped(#[trigger] r[i].tag@) by {
        if i == 0 {
        } else if i == 1 {
        } else if i == 2 {
        } else if i == 3 {
        } else if i == 4 {
        } else if i == 5 {
        } else if i == 6 {
        } else if i == 7 {
        } else if i == 8 {
        } else if i == 9 {
        } else if i == 10 {
        } else if i == 11 {
        } else if i == 12 {
        } else if i == 13 {
        } else if i == 14 {
        } else if i == 15 {
        } else if i == 16 {
        } else if i == 17 {
        } else if i == 18 {
        } else if i == 19 {
        } else if i == 20 {
        } else if i == 21 {
        } else if i == 22 {
        } else if i == 23 {
        } else if i == 24 {
        } else if i == 25 {
        } else if i == 26 {
        } else if i == 27 {
        } else if i == 28 {
        } else if i == 29 {
        } else if i == 30 {
        } else if i == 31 {
        } else if i == 32 {
        } else if i == 33 {
        }
    }
}

pub proof fn lemma_research_rules_shaped(r: Seq<AnonymizationRule>)
    requires
        research_rules(r),
    ensures
        forall|i: int| 0 <= i < r.len() ==> tag_shaped(#[trigger] r[i].tag@),
{
    reveal_strlit("(0008,0020)");
    reveal_strlit("(0008,0021)");
    reveal_strlit("(0008,0030)");
    reveal_strlit("(0008,0031)");
    reveal_strlit("(0008,0080)");
    reveal_strlit("(0008,0081)");
    reveal_strlit("(0008,0090)");
    reveal_strlit("(0008,1048)");
    reveal_strlit("(0008,1050)");
    reveal_strlit("(0008,1070)");
    reveal_strlit("(0010,0010)");
    reveal_strlit("(0010,0020)");
    reveal_strlit("(0010,0030)");
    reveal_strlit("(0010,0032)");
    reveal_strlit("(0010,1010)");
    reveal_strlit("(0010,1040)");
    reveal_strlit("(0010,2154)");
    reveal_strlit("(0010,4000)");
    reveal_strlit("(0018,1000)");
    assert forall|i: int| 0 <= i < r.len() implies tag_shaped(#[trigger] r[i].tag@) by {
        if i == 0 {
        } else if i == 1 {
        } else if i == 2 {
        } else if i == 3 {
        } else if i == 4 {
        } else if i == 5 {
        } else if i == 6 {
        } else if i == 7 {
        } else if i == 8 {
        } else if i == 9 {
        } else if i == 10 {
        } else if i == 11 {
        } else if i == 12 {
        } else if i == 13 {
        } else if i == 14 {
        } else if i == 15 {
        } else if i == 16 {
        } else if i == 17 {
        } else if i == 18 {
        }
    }
}

fn rule(tag: &str, action: AnonymizationAction) -> (r: AnonymizationRule)
    ensures
        r.tag@ == tag@,
        r.action == action,
{
    AnonymizationRule { tag: tag.to_string(), action }
}

fn replace(text: &str) -> (r: AnonymizationAction)
    ensures
        r matches AnonymizationAction::Replace(t) && t@ == text@,
{
    AnonymizationAction::Replace(text.to_string())
}

/// Replaces the patient's name, hashes the patient id, blanks the birth
/// date.
pub fn basic_template() -> (r: AnonymizationTemplate)
    ensures
        r.name@ == "Basic"@,
        basic_rules(r.rules@),
{
    let mut rules: Vec<AnonymizationRule> = Vec::new();
    rules.push(rule("(0010,0010)", replace("ANONYMOUS")));
    rules.push(rule("(0010,0020)", AnonymizationAction::Hash));
    rules.push(rule("(0010,0030)", AnonymizationAction::Blank));
    AnonymizationTemplate {
        name: "Basic".to_string(),
        description: "Removes basic patient identifiers".to_string(),
        rules,
    }
}

/// Comprehensive: patient, physician, institution and device data go, the
/// study, series and instance UIDs are regenerated, dates and times blanked.
pub fn full_template() -> (r: AnonymizationTemplate)
    ensures
        r.name@ == "Full"@,
        full_rules(r.rules@),
{
    let mut rules: Vec<AnonymizationRule> = Vec::new();
    rules.push(rule("(0010,0010)", replace("ANONYMOUS")));
    rules.push(rule("(0010,0020)", AnonymizationAction::Hash));
    rules.push(rule("(0010,0030)", AnonymizationAction::Blank));
    rules.push(rule("(0010,0032)", AnonymizationAction::Remove));
    rules.push(rule("(0010,0040)", AnonymizationAction::Blank));
    rules.push(rule("(0010,1000)", AnonymizationAction::Remove));
    rules.push(rule("(0010,1001)", AnonymizationAction::Remove));
    rules.push(rule("(0010,1010)", AnonymizationAction::Blank));
    rules.push(rule("(0010,1020)", AnonymizationAction::Remove));
    rules.push(rule("(0010,1030)", AnonymizationAction::Remove));
    rules.push(rule("(0010,1040)", AnonymizationAction::Remove));
    rules.push(rule("(0010,2154)", AnonymizationAction::Remove));
    rules.push(rule("(0010,21B0)", AnonymizationAction::Remove));
    rules.push(rule("(0010,4000)", AnonymizationAction::Remove));
    rules.push(rule("(0008,0090)", AnonymizationAction::Blank));
    rules.push(rule("(0008,1048)", AnonymizationAction::Remove));
    rules.push(rule("(0008,1050)", AnonymizationAction::Blank));
    rules.push(rule("(0008,1070)", AnonymizationAction::Blank));
    rules.push(rule("(0008,0080)", AnonymizationAction::Blank));
    rules.push(rule("(0008,0081)", AnonymizationAction::Remove));
    rules.push(rule("(0008,1040)", AnonymizationAction::Remove));
    rules.push(rule("(0020,000D)", AnonymizationAction::GenerateUID));
    rules.push(rule("(0020,000E)", AnonymizationAction::GenerateUID));
    rules.push(rule("(0008,0018)", AnonymizationAction::GenerateUID));
    rules.push(rule("(0008,0020)", AnonymizationAction::Blank));
    rules.push(rule("(0008,0021)", AnonymizationAction::Blank));
    rules.push(rule("(0008,0022)", AnonymizationAction::Blank));
    rules.push(rule("(0008,0023)", AnonymizationAction::Blank));
    rules.push(rule("(0008,0030)", AnonymizationAction::Blank));
    rules.push(rule("(0008,0031)", AnonymizationAction::Blank));
    rules.push(rule("(0008,0032)", AnonymizationAction::Blank));
    rules.push(rule("(0008,0033)", AnonymizationAction::Blank));
    rules.push(rule("(0008,1010)", AnonymizationAction::Blank));
    rules.push(rule("(0018,1000)", AnonymizationAction::Remove));
    AnonymizationTemplate {
        name: "Full".to_string(),
        description: "Comprehensive anonymization following DICOM PS3.15".to_string(),
        rules,
    }
}

/// Keeps study relationships: identifiers are hashed rather than replaced,
/// UIDs stay, dates and times are blanked.
pub fn research_template() -> (r: AnonymizationTemplate)
    ensures
        r.name@ == "Research"@,
        research_rules(r.rules@),
{
    let mut rules: Vec<AnonymizationRule> = Vec::new();
    rules.push(rule("(0010,0010)", AnonymizationAction::Hash));
    rules.push(rule("(0010,0020)", AnonymizationAction::Hash));
    rules.push(rule("(0010,0030)", AnonymizationAction::Blank));
    rules.push(rule("(0010,0032)", AnonymizationAction::Remove));
    rules.push(rule("(0010,1010)", AnonymizationAction::Blank));
    rules.push(rule("(0010,1040)", AnonymizationAction::Remove));
    rules.push(rule("(0010,2154)", AnonymizationAction::Remove));
    rules.push(rule("(0010,4000)", AnonymizationAction::Remove));
    rules.push(rule("(0008,0090)", AnonymizationAction::Blank));
    rules.push(rule("(0008,1048)", AnonymizationAction::Remove));
    rules.push(rule("(0008,1050)", AnonymizationAction::Blank));
    rules.push(rule("(0008,1070)", AnonymizationAction::Blank));
    rules.push(rule("(0008,0080)", AnonymizationAction::Blank));
    rules.push(rule("(0008,0081)", AnonymizationAction::Remove));
    rules.push(rule("(0008,0020)", AnonymizationAction::Blank));
    rules.push(rule("(0008,0021)", AnonymizationAction::Blank));
    rules.push(rule("(0008,0030)", AnonymizationAction::Blank));
    rules.push(rule("(0008,0031)", AnonymizationAction::Blank));
    rules.push(rule("(0018,1000)", AnonymizationAction::Remove));
    AnonymizationTemplate {
        name: "Research".to_string(),
        description: "Anonymizes while preserving study relationships".to_string(),
        rules,
    }
}

/// The built-in templates: Basic, Full and Research, in that order.
pub fn get_builtin_templates() -> (r: Vec<AnonymizationTemplate>)
    ensures
        r@.len() == 3,
        r@[0].name@ == "Basic"@ && basic_rules(r@[0].rules@) && r@[0].rules@.len() == 3,
        r@[1].name@ == "Full"@ && full_rules(r@[1].rules@) && r@[1].rules@.len() == 34,
        r@[2].name@ == "Research"@ && research_rules(r@[2].rules@) && r@[2].rules@.len() == 19,
        forall|t: int, i: int|
            0 <= t < 3 && 0 <= i < r@[t].rules@.len() ==> tag_of(#[trigger] r@[t].rules@[i].tag@) is Some,
{
    let mut v: Vec<AnonymizationTemplate> = Vec::new();
    v.push(basic_template());
    v.push(full_template());
    v.push(research_template());
    proof {
        lemma_basic_rules_shaped(v@[0].rules@);
        lemma_full_rules_shaped(v@[1].rules@);
        lemma_research_rules_shaped(v@[2].rules@);
        lemma_tags_parse(v@[0].rules@);
        lemma_tags_parse(v@[1].rules@);
        lemma_tags_parse(v@[2].rules@);
        assert forall|t: int, i: int| 0 <= t < 3 && 0 <= i < v@[t].rules@.len() implies tag_of(
            #[trigger] v@[t].rules@[i].tag@,
        ) is Some by {
            if t == 0 {
                assert(tag_of(v@[0].rules@[i].tag@) is Some);
            } else if t == 1 {
                assert(tag_of(v@[1].rules@[i].tag@) is Some);
            } else {
                assert(tag_of(v@[2].rules@[i].tag@) is Some);
            }
        }
    }
    v
}

} // verus!
