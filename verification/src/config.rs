//! Quiet-hours rules and the application settings, with their text formats:
//! a rule is six comma-separated fields, a rule list joins rules with `;`,
//! and the settings file is `key = value` lines under `[Settings]`.
use vstd::prelude::*;
use crate::text::{
    bool_text, chars_of, decimal, find_char, index_of, is_whitespace, join_chars, join_with,
    is_digit, key_is, key_matches, lemma_decimal_digits, lemma_decimal_no_char,
    lemma_index_of_at, lemma_split_concat, lemma_split_pieces_lack,
    lemma_index_of_none, lemma_no_char_concat, lemma_trim_plain,
    lemma_trimmed_ends, trim_end, trim_start, lemma_parse_bool_text, lemma_parse_decimal,
    lemma_split_join, parse_bool_chars, parse_bool_spec, parse_u32_chars, parse_u32_spec,
    push_bool, push_chars, push_decimal, split_chars, split_on, string_of, sub_chars, trim,
    trim_chars, views,
};

verus! {

/// One quiet-hours rule: reminders are muted on the chosen days between
/// `start_hour` and `end_hour` (across midnight when `overnight`).
#[derive(Clone, Debug, PartialEq)]
pub struct QuietHoursRule {
    pub enabled: bool,
    /// One of `every_day`, `work_days`, `weekends`, `custom`.
    pub preset: String,
    pub start_hour: u32,
    pub end_hour: u32,
    /// Monday first, Sunday last.
    pub days: [bool; 7],
    pub overnight: bool,
}

/// The mathematical content of a [`QuietHoursRule`].
#[verifier::ext_equal]
pub struct RuleView {
    pub enabled: bool,
    pub preset: Seq<char>,
    pub start_hour: u32,
    pub end_hour: u32,
    pub days: Seq<bool>,
    pub overnight: bool,
}

impl View for QuietHoursRule {
    type V = RuleView;

    open spec fn view(&self) -> RuleView {
        RuleView {
            enabled: self.enabled,
            preset: self.preset@,
            start_hour: self.start_hour,
            end_hour: self.end_hour,
            days: self.days@,
            overnight: self.overnight,
        }
    }
}

pub open spec fn rule_views(rules: Seq<QuietHoursRule>) -> Seq<RuleView> {
    rules.map_values(|r: QuietHoursRule| r@)
}

/// `1` for a chosen day, `0` for another.
pub open spec fn days_text(days: Seq<bool>) -> Seq<char> {
    Seq::new(days.len(), |i: int| if days[i] { '1' } else { '0' })
}

/// The six fields of a rule's text.
pub open spec fn rule_fields(r: RuleView) -> Seq<Seq<char>> {
    seq![
        bool_text(r.enabled),
        r.preset,
        decimal(r.start_hour as nat),
        decimal(r.end_hour as nat),
        days_text(r.days),
        bool_text(r.overnight),
    ]
}

/// `enabled,preset,start,end,days,overnight`.
pub open spec fn rule_text(r: RuleView) -> Seq<char> {
    join_with(rule_fields(r), ',')
}

/// What reading a rule's text gives.
pub open spec fn rule_from_text(s: Seq<char>) -> Option<RuleView> {
    let p = split_on(s, ',');
    if p.len() != 6 {
        None
    } else {
        match (parse_bool_spec(p[0]), parse_u32_spec(p[2]), parse_u32_spec(p[3]), parse_bool_spec(p[5])) {
            (Some(en), Some(st), Some(e), Some(ov)) => if p[4].len() == 7 {
                Some(RuleView {
                    enabled: en,
                    preset: p[1],
                    start_hour: st,
                    end_hour: e,
                    days: Seq::new(7, |i: int| p[4][i] == '1'),
                    overnight: ov,
                })
            } else {
                None
            },
            _ => None,
        }
    }
}

/// The rules read from the pieces of a rule list, in order; pieces that
/// are not a rule are passed over.
pub open spec fn rules_from_pieces(pieces: Seq<Seq<char>>) -> Seq<RuleView>
    decreases pieces.len(),
{
    if pieces.len() == 0 {
        Seq::<RuleView>::empty()
    } else {
        let init = rules_from_pieces(pieces.drop_last());
        match rule_from_text(pieces.last()) {
            Some(r) => init.push(r),
            None => init,
        }
    }
}

/// What reading a `;`-separated rule list gives.
pub open spec fn rules_from_text(s: Seq<char>) -> Seq<RuleView> {
    if s.len() == 0 {
        Seq::<RuleView>::empty()
    } else {
        rules_from_pieces(split_on(s, ';'))
    }
}

/// The text of a rule list: the rules' texts joined with `;`.
pub open spec fn rules_text(rules: Seq<RuleView>) -> Seq<char> {
    join_with(rules.map_values(|r: RuleView| rule_text(r)), ';')
}

/// A rule whose text reads back as itself inside a rule list.
pub open spec fn rule_storable(r: RuleView) -> bool {
    &&& r.days.len() == 7
    &&& !r.preset.contains(',')
    &&& !r.preset.contains(';')
}

impl QuietHoursRule {
    /// The rule's text: `enabled,preset,start,end,days,overnight`, with the
    /// days written as seven `1`/`0` characters.
    pub fn serialize(&self) -> (res: String)
        ensures
            res@ == rule_text(self@),
    {
        let out = self.serialize_chars();
        string_of(&out)
    }

    fn serialize_chars(&self) -> (res: Vec<char>)
        ensures
            res@ == rule_text(self@),
    {
        let mut fields: Vec<Vec<char>> = Vec::new();
        let mut f0: Vec<char> = Vec::new();
        push_bool(&mut f0, self.enabled);
        fields.push(f0);
        fields.push(chars_of(self.preset.as_str()));
        let mut f2: Vec<char> = Vec::new();
        push_decimal(&mut f2, self.start_hour as u64);
        fields.push(f2);
        let mut f3: Vec<char> = Vec::new();
        push_decimal(&mut f3, self.end_hour as u64);
        fields.push(f3);
        let mut f4: Vec<char> = Vec::new();
        let mut i: usize = 0;
        while i < 7
            invariant
                i <= 7,
                f4@ == days_text(self.days@).take(i as int),
            decreases 7 - i,
        {
            f4.push(if self.days[i] { '1' } else { '0' });
            i = i + 1;
            assert(f4@ =~= days_text(self.days@).take(i as int));
        }
        assert(days_text(self.days@).take(7) =~= days_text(self.days@));
        fields.push(f4);
        let mut f5: Vec<char> = Vec::new();
        push_bool(&mut f5, self.overnight);
        fields.push(f5);
        assert(views(fields@) =~= rule_fields(self@));
        join_chars(&fields, ',')
    }

    /// Reads a rule from its text; `None` unless the text has exactly six
    /// comma-separated fields, the first and last read as `bool`, the third
    /// and fourth as `u32`, and the fifth has seven characters (a day is
    /// chosen where its character is `1`).
    pub fn from_string(s: &str) -> (res: Option<QuietHoursRule>)
        ensures
            match res {
                Some(r) => rule_from_text(s@) == Some(r@),
                None => rule_from_text(s@) is None,
            },
    {
        let cs = chars_of(s);
        Self::from_chars(&cs)
    }

    fn from_chars(s: &Vec<char>) -> (res: Option<QuietHoursRule>)
        ensures
            match res {
                Some(r) => rule_from_text(s@) == Some(r@),
                None => rule_from_text(s@) is None,
            },
    {
        let parts = split_chars(s, ',');
        let ghost p = split_on(s@, ',');
        if parts.len() != 6 {
            return None;
        }
        assert(parts[0]@ == p[0] && parts[1]@ == p[1] && parts[2]@ == p[2]);
        assert(parts[3]@ == p[3] && parts[4]@ == p[4] && parts[5]@ == p[5]);
        let enabled = match parse_bool_chars(&parts[0]) {
            Some(b) => b,
            None => return None,
        };
        let preset = string_of(&parts[1]);
        let start_hour = match parse_u32_chars(&parts[2]) {
            Some(v) => v,
            None => return None,
        };
        let end_hour = match parse_u32_chars(&parts[3]) {
            Some(v) => v,
            None => return None,
        };
        let d = &parts[4];
        if d.len() != 7 {
            return None;
        }
        let days: [bool; 7] = [
            d[0] == '1',
            d[1] == '1',
            d[2] == '1',
            d[3] == '1',
            d[4] == '1',
            d[5] == '1',
            d[6] == '1',
        ];
        let overnight = match parse_bool_chars(&parts[5]) {
            Some(b) => b,
            None => return None,
        };
        let r = QuietHoursRule { enabled, preset, start_hour, end_hour, days, overnight };
        assert(r@.days =~= Seq::new(7, |i: int| p[4][i] == '1'));
        assert(r@ =~= rule_from_text(s@)->Some_0);
        Some(r)
    }
}

/// Reads a `;`-separated list of rules, keeping those that read as a rule,
/// in order; the empty text holds no rule.
pub fn parse_rules(s: &str) -> (res: Vec<QuietHoursRule>)
    ensures
        rule_views(res@) == rules_from_text(s@),
{
    let mut rules: Vec<QuietHoursRule> = Vec::new();
    let cs = chars_of(s);
    if cs.len() == 0 {
        assert(rule_views(rules@) =~= Seq::<RuleView>::empty());
        return rules;
    }
    let items = split_chars(&cs, ';');
    let ghost pieces = split_on(s@, ';');
    let mut i: usize = 0;
    while i < items.len()
        invariant
            i <= items.len(),
            views(items@) == pieces,
            rule_views(rules@) == rules_from_pieces(pieces.take(i as int)),
        decreases items.len() - i,
    {
        let ghost before = rule_views(rules@);
        assert(pieces.take(i + 1).drop_last() =~= pieces.take(i as int));
        assert(pieces.take(i + 1).last() == items[i as int]@);
        match QuietHoursRule::from_chars(&items[i]) {
            Some(rule) => {
                rules.push(rule);
                assert(rule_views(rules@) =~= before.push(rule@));
            },
            None => {},
        }
        i = i + 1;
    }
    assert(pieces.take(items.len() as int) =~= pieces);
    rules
}

/// The text of a rule list: each rule's text, joined with `;`.
pub fn serialize_rules(rules: &Vec<QuietHoursRule>) -> (res: String)
    ensures
        res@ == rules_text(rule_views(rules@)),
{
    let mut texts: Vec<Vec<char>> = Vec::new();
    let mut i: usize = 0;
    while i < rules.len()
        invariant
            i <= rules.len(),
            views(texts@) == rule_views(rules@).take(i as int).map_values(|r: RuleView| rule_text(r)),
        decreases rules.len() - i,
    {
        let t = rules[i].serialize_chars();
        let ghost prev = views(texts@);
        texts.push(t);
        proof {
            let rv = rule_views(rules@);
            assert(rv[i as int] == rules@[i as int]@);
            assert(views(texts@) =~= prev.push(rule_text(rv[i as int])));
            assert(rv.take(i + 1).map_values(|r: RuleView| rule_text(r)) =~= rv.take(
                i as int,
            ).map_values(|r: RuleView| rule_text(r)).push(rule_text(rv[i as int])));
        }
        i = i + 1;
        assert(views(texts@) =~= rule_views(rules@).take(i as int).map_values(
            |r: RuleView| rule_text(r),
        ));
    }
    assert(rule_views(rules@).take(rules.len() as int) =~= rule_views(rules@));
    let out = join_chars(&texts, ';');
    string_of(&out)
}

// ---------------------------------------------------------------------
// Round trips of the rule formats
// ---------------------------------------------------------------------

proof fn lemma_bool_text_plain(b: bool)
    ensures
        bool_text(b).len() >= 1,
        !bool_text(b).contains(','),
        !bool_text(b).contains(';'),
        !bool_text(b).contains('\n'),
        forall|i: int| 0 <= i < bool_text(b).len() ==> !is_whitespace(#[trigger] bool_text(b)[i]),
        forall|i: int| 0 <= i < bool_text(b).len() ==> #[trigger] bool_text(b)[i] != '=',
{
    reveal_strlit("true");
    reveal_strlit("false");
}

proof fn lemma_days_text_plain(days: Seq<bool>)
    ensures
        !days_text(days).contains(','),
        !days_text(days).contains(';'),
{
}

/// A rule whose preset holds no `,` and that has seven days reads back
/// from its own text.
pub proof fn lemma_rule_round_trip(r: RuleView)
    requires
        r.days.len() == 7,
        !r.preset.contains(','),
    ensures
        rule_from_text(rule_text(r)) == Some(r),
{
    let f = rule_fields(r);
    lemma_bool_text_plain(r.enabled);
    lemma_bool_text_plain(r.overnight);
    lemma_decimal_no_char(r.start_hour as nat, ',');
    lemma_decimal_no_char(r.end_hour as nat, ',');
    lemma_days_text_plain(r.days);
    assert forall|i: int| 0 <= i < f.len() implies !(#[trigger] f[i]).contains(',') by {
        if i == 0 {
        } else if i == 1 {
        } else if i == 2 {
        } else if i == 3 {
        } else if i == 4 {
        } else {
        }
    }
    lemma_split_join(f, ',');
    lemma_parse_bool_text(r.enabled);
    lemma_parse_bool_text(r.overnight);
    lemma_parse_decimal(r.start_hour);
    lemma_parse_decimal(r.end_hour);
    let back = rule_from_text(rule_text(r))->Some_0;
    assert(back.days =~= r.days);
    assert(back =~= r);
}

proof fn lemma_rule_text_plain(r: RuleView)
    requires
        !r.preset.contains(';'),
    ensures
        !rule_text(r).contains(';'),
        rule_text(r).len() >= 1,
{
    let f = rule_fields(r);
    lemma_bool_text_plain(r.enabled);
    lemma_bool_text_plain(r.overnight);
    lemma_decimal_no_char(r.start_hour as nat, ';');
    lemma_decimal_no_char(r.end_hour as nat, ';');
    lemma_days_text_plain(r.days);
    lemma_join_no_char(f, ',', ';');
    lemma_join_len(f, ',');
}

proof fn lemma_join_no_char(pieces: Seq<Seq<char>>, sep: char, c: char)
    requires
        sep != c,
        forall|i: int| 0 <= i < pieces.len() ==> !(#[trigger] pieces[i]).contains(c),
    ensures
        !join_with(pieces, sep).contains(c),
    decreases pieces.len(),
{
    if pieces.len() > 1 {
        let init = pieces.drop_last();
        assert forall|i: int| 0 <= i < init.len() implies !(#[trigger] init[i]).contains(c) by {
            assert(init[i] == pieces[i]);
        }
        lemma_join_no_char(init, sep, c);
        let a = join_with(init, sep).push(sep);
        let b = pieces.last();
        assert(!pieces[pieces.len() - 1].contains(c));
        if (a + b).contains(c) {
            let k = choose|k: int| 0 <= k < (a + b).len() && (a + b)[k] == c;
            if k < a.len() - 1 {
                assert(join_with(init, sep)[k] == c);
            } else if k >= a.len() {
                assert(b[k - a.len()] == c);
            }
        }
    } else if pieces.len() == 1 {
        assert(pieces[0] == join_with(pieces, sep));
    }
}

proof fn lemma_join_len(pieces: Seq<Seq<char>>, sep: char)
    requires
        pieces.len() >= 1,
        pieces[0].len() >= 1,
    ensures
        join_with(pieces, sep).len() >= 1,
    decreases pieces.len(),
{
    if pieces.len() > 1 {
        lemma_join_len(pieces.drop_last(), sep);
    }
}

proof fn lemma_rules_from_own_pieces(rs: Seq<RuleView>)
    requires
        forall|i: int| 0 <= i < rs.len() ==> rule_storable(#[trigger] rs[i]),
    ensures
        rules_from_pieces(rs.map_values(|r: RuleView| rule_text(r))) == rs,
    decreases rs.len(),
{
    if rs.len() > 0 {
        let init = rs.drop_last();
        assert forall|i: int| 0 <= i < init.len() implies rule_storable(#[trigger] init[i]) by {
            assert(init[i] == rs[i]);
        }
        lemma_rules_from_own_pieces(init);
        let texts = rs.map_values(|r: RuleView| rule_text(r));
        assert(texts.drop_last() =~= init.map_values(|r: RuleView| rule_text(r)));
        assert(rule_storable(rs[rs.len() - 1]));
        lemma_rule_round_trip(rs.last());
        assert(init.push(rs.last()) =~= rs);
    } else {
        assert(rs.map_values(|r: RuleView| rule_text(r)) =~= Seq::<Seq<char>>::empty());
    }
}

proof fn lemma_rules_from_pieces_storable(pieces: Seq<Seq<char>>)
    requires
        forall|j: int| 0 <= j < pieces.len() ==> !(#[trigger] pieces[j]).contains(';'),
    ensures
        forall|i: int|
            0 <= i < rules_from_pieces(pieces).len() ==> rule_storable(
                #[trigger] rules_from_pieces(pieces)[i],
            ),
    decreases pieces.len(),
{
    if pieces.len() > 0 {
        let init = pieces.drop_last();
        assert forall|j: int| 0 <= j < init.len() implies !(#[trigger] init[j]).contains(';') by {
            assert(init[j] == pieces[j]);
        }
        lemma_rules_from_pieces_storable(init);
        let last = pieces.last();
        assert(!last.contains(';')) by {
            assert(last == pieces[pieces.len() - 1]);
        }
        lemma_split_pieces_lack(last, ',', ',');
        lemma_split_pieces_lack(last, ',', ';');
        match rule_from_text(last) {
            Some(r) => {
                let p = split_on(last, ',');
                assert(r.preset == p[1]);
                let rs = rules_from_pieces(pieces);
                assert forall|i: int| 0 <= i < rs.len() implies rule_storable(#[trigger] rs[i]) by {
                    if i < rs.len() - 1 {
                        assert(rs[i] == rules_from_pieces(init)[i]);
                    }
                }
            },
            None => {},
        }
    }
}

proof fn lemma_rules_from_pieces_concat(p: Seq<Seq<char>>, q: Seq<Seq<char>>)
    ensures
        rules_from_pieces(p + q) == rules_from_pieces(p) + rules_from_pieces(q),
    decreases q.len(),
{
    if q.len() == 0 {
        assert(p + q =~= p);
        assert(rules_from_pieces(p) + rules_from_pieces(q) =~= rules_from_pieces(p));
    } else {
        lemma_rules_from_pieces_concat(p, q.drop_last());
        assert((p + q).drop_last() =~= p + q.drop_last());
        assert((p + q).last() == q.last());
        let a = rules_from_pieces(p);
        let b = rules_from_pieces(q.drop_last());
        match rule_from_text(q.last()) {
            Some(r) => {
                assert((a + b).push(r) =~= a + b.push(r));
            },
            None => {},
        }
    }
}

/// Reading two rule lists joined by `;` gives the rules of the first and
/// then those of the second.
pub proof fn lemma_rules_text_concat(a: Seq<char>, b: Seq<char>)
    requires
        a.len() > 0,
    ensures
        rules_from_text(a.push(';') + b) == rules_from_text(a) + rules_from_text(b),
{
    lemma_split_concat(a, b, ';');
    lemma_rules_from_pieces_concat(split_on(a, ';'), split_on(b, ';'));
    assert((a.push(';') + b).len() > 0);
    if b.len() == 0 {
        assert(split_on(b, ';') =~= seq![Seq::<char>::empty()]);
        assert(split_on(Seq::<char>::empty(), ',') =~= seq![Seq::<char>::empty()]);
        assert(rule_from_text(Seq::<char>::empty()) is None);
        let one = seq![Seq::<char>::empty()];
        assert(one.drop_last() =~= Seq::<Seq<char>>::empty());
        assert(one.last() == Seq::<char>::empty());
        assert(rules_from_pieces(one.drop_last()) =~= Seq::<RuleView>::empty());
        assert(rules_from_pieces(one) =~= Seq::<RuleView>::empty());
    }
}

/// Every rule read from a rule list is storable: it has seven days, and
/// its preset holds no `,` or `;`.
pub proof fn lemma_parsed_rules_storable(s: Seq<char>)
    ensures
        forall|i: int|
            0 <= i < rules_from_text(s).len() ==> rule_storable(#[trigger] rules_from_text(s)[i]),
{
    if s.len() > 0 {
        lemma_split_pieces_lack(s, ';', ';');
        lemma_rules_from_pieces_storable(split_on(s, ';'));
    }
}

/// A rule list whose rules are storable (seven days, no `,` or `;` in the
/// preset) reads back from its own text.
pub proof fn lemma_rules_round_trip(rs: Seq<RuleView>)
    requires
        forall|i: int| 0 <= i < rs.len() ==> rule_storable(#[trigger] rs[i]),
    ensures
        rules_from_text(rules_text(rs)) == rs,
{
    let texts = rs.map_values(|r: RuleView| rule_text(r));
    lemma_rules_from_own_pieces(rs);
    if rs.len() == 0 {
        assert(texts =~= Seq::<Seq<char>>::empty());
        assert(rs =~= Seq::<RuleView>::empty());
    } else {
        assert forall|i: int| 0 <= i < texts.len() implies !(#[trigger] texts[i]).contains(';') by {
            lemma_rule_text_plain(rs[i]);
        }
        lemma_rule_text_plain(rs[0]);
        lemma_join_len(texts, ';');
        lemma_split_join(texts, ';');
    }
}


/// The application settings.
#[derive(Debug, Clone)]
pub struct AppConfig {
    pub enabled: bool,
    pub interval_mins: u32,
    pub volume: u32,
    pub quiet_hours_enabled: bool,
    /// A rule list in the `;`-separated rule format.
    pub quiet_hours_rules: String,
    pub run_at_startup: bool,
    pub first_launch: bool,
}

/// The mathematical content of an [`AppConfig`].
#[verifier::ext_equal]
pub struct ConfigView {
    pub enabled: bool,
    pub interval_mins: u32,
    pub volume: u32,
    pub quiet_hours_enabled: bool,
    pub quiet_hours_rules: Seq<char>,
    pub run_at_startup: bool,
    pub first_launch: bool,
}

impl View for AppConfig {
    type V = ConfigView;

    open spec fn view(&self) -> ConfigView {
        ConfigView {
            enabled: self.enabled,
            interval_mins: self.interval_mins,
            volume: self.volume,
            quiet_hours_enabled: self.quiet_hours_enabled,
            quiet_hours_rules: self.quiet_hours_rules@,
            run_at_startup: self.run_at_startup,
            first_launch: self.first_launch,
        }
    }
}

pub open spec fn default_rules_text() -> Seq<char> {
    "true,every_day,22,11,1111111,true;true,work_days,9,17,1111100,false"@
}

/// The settings a first launch starts from.
pub open spec fn default_config() -> ConfigView {
    ConfigView {
        enabled: true,
        interval_mins: 30,
        volume: 80,
        quiet_hours_enabled: false,
        quiet_hours_rules: default_rules_text(),
        run_at_startup: false,
        first_launch: true,
    }
}

pub open spec fn bool_or(o: Option<bool>, d: bool) -> bool {
    match o {
        Some(b) => b,
        None => d,
    }
}

pub open spec fn u32_or(o: Option<u32>, d: u32) -> u32 {
    match o {
        Some(v) => v,
        None => d,
    }
}

/// The effect of one `key = value` setting; a value that does not read
/// gives the setting's default, the volume is capped at 100, and an
/// unknown key changes nothing.
pub open spec fn apply_setting(c: ConfigView, key: Seq<char>, val: Seq<char>) -> ConfigView {
    if key_is(key, "enabled"@) {
        ConfigView { enabled: bool_or(parse_bool_spec(val), true), ..c }
    } else if key_is(key, "interval_mins"@) {
        ConfigView { interval_mins: u32_or(parse_u32_spec(val), 30), ..c }
    } else if key_is(key, "volume"@) {
        let v = u32_or(parse_u32_spec(val), 80);
        ConfigView { volume: if v < 100 { v } else { 100 }, ..c }
    } else if key_is(key, "quiet_hours_enabled"@) {
        ConfigView { quiet_hours_enabled: bool_or(parse_bool_spec(val), false), ..c }
    } else if key_is(key, "quiet_hours_rules"@) {
        ConfigView { quiet_hours_rules: val, ..c }
    } else if key_is(key, "run_at_startup"@) {
        ConfigView { run_at_startup: bool_or(parse_bool_spec(val), false), ..c }
    } else if key_is(key, "first_launch"@) {
        ConfigView { first_launch: bool_or(parse_bool_spec(val), true), ..c }
    } else {
        c
    }
}

/// The effect of one line of a settings file: blank lines, lines starting
/// with `;` or `#` and lines without `=` change nothing; otherwise the text
/// before the first `=` is the key and the text after it the value, both
/// trimmed.
pub open spec fn apply_line(c: ConfigView, line: Seq<char>) -> ConfigView {
    let t = trim(line);
    if t.len() == 0 || t[0] == ';' || t[0] == '#' {
        c
    } else {
        match index_of(t, '=') {
            None => c,
            Some(p) => apply_setting(c, trim(t.take(p as int)), trim(t.skip(p as int + 1))),
        }
    }
}

pub open spec fn apply_lines(c: ConfigView, lines: Seq<Seq<char>>) -> ConfigView
    decreases lines.len(),
{
    if lines.len() == 0 {
        c
    } else {
        apply_line(apply_lines(c, lines.drop_last()), lines.last())
    }
}

/// The settings read from a settings file's text: the defaults, changed by
/// each line in turn.
pub open spec fn config_from_text(text: Seq<char>) -> ConfigView {
    apply_lines(default_config(), split_on(text, '\n'))
}

/// `name = value`.
pub open spec fn setting_line(name: Seq<char>, value: Seq<char>) -> Seq<char> {
    name + seq![' ', '=', ' '] + value
}

/// The lines of the settings file, the last one empty (the text ends
/// with a line break).
pub open spec fn ini_lines(c: ConfigView) -> Seq<Seq<char>> {
    seq![
        "[Settings]"@,
        setting_line("enabled"@, bool_text(c.enabled)),
        setting_line("interval_mins"@, decimal(c.interval_mins as nat)),
        setting_line("volume"@, decimal(c.volume as nat)),
        setting_line("quiet_hours_enabled"@, bool_text(c.quiet_hours_enabled)),
        setting_line("quiet_hours_rules"@, c.quiet_hours_rules),
        setting_line("run_at_startup"@, bool_text(c.run_at_startup)),
        setting_line("first_launch"@, bool_text(c.first_launch)),
        Seq::<char>::empty(),
    ]
}

/// The settings file's text.
pub open spec fn ini_text(c: ConfigView) -> Seq<char> {
    join_with(ini_lines(c), '\n')
}

fn setting_chars(name: &str, value: &Vec<char>) -> (res: Vec<char>)
    ensures
        res@ == setting_line(name@, value@),
{
    let mut out = chars_of(name);
    out.push(' ');
    out.push('=');
    out.push(' ');
    push_chars(&mut out, value);
    assert(out@ =~= setting_line(name@, value@));
    out
}

fn bool_chars(b: bool) -> (res: Vec<char>)
    ensures
        res@ == bool_text(b),
{
    let mut out: Vec<char> = Vec::new();
    push_bool(&mut out, b);
    assert(out@ =~= bool_text(b));
    out
}

fn decimal_chars(n: u32) -> (res: Vec<char>)
    ensures
        res@ == decimal(n as nat),
{
    let mut out: Vec<char> = Vec::new();
    push_decimal(&mut out, n as u64);
    assert(out@ =~= decimal(n as nat));
    out
}

impl AppConfig {
    /// The settings a first launch starts from: reminders on every 30
    /// minutes at volume 80, quiet hours off with two rules prepared.
    pub fn default() -> (res: Self)
        ensures
            res@ == default_config(),
    {
        AppConfig {
            enabled: true,
            interval_mins: 30,
            volume: 80,
            quiet_hours_enabled: false,
            quiet_hours_rules: String::from_str(
                "true,every_day,22,11,1111111,true;true,work_days,9,17,1111100,false",
            ),
            run_at_startup: false,
            first_launch: true,
        }
    }

    /// Reads the settings from a settings file's text: the defaults,
    /// changed by each `key = value` line in turn.
    pub fn load_from_str(contents: &str) -> (res: Self)
        ensures
            res@ == config_from_text(contents@),
    {
        let mut config = Self::default();
        let cs = chars_of(contents);
        let lines = split_chars(&cs, '\n');
        let ghost ls = split_on(contents@, '\n');
        let mut i: usize = 0;
        while i < lines.len()
            invariant
                i <= lines.len(),
                views(lines@) == ls,
                config@ == apply_lines(default_config(), ls.take(i as int)),
            decreases lines.len() - i,
        {
            assert(ls.take(i + 1).drop_last() =~= ls.take(i as int));
            assert(ls.take(i + 1).last() == lines[i as int]@);
            config.apply_line(&lines[i]);
            i = i + 1;
        }
        assert(ls.take(lines.len() as int) =~= ls);
        config
    }

    fn apply_line(&mut self, line: &Vec<char>)
        ensures
            final(self)@ == apply_line(old(self)@, line@),
    {
        let t = trim_chars(line);
        if t.len() == 0 || t[0] == ';' || t[0] == '#' {
            return;
        }
        match find_char(&t, '=') {
            None => {},
            Some(p) => {
                let k = sub_chars(&t, 0, p);
                let v = sub_chars(&t, p + 1, t.len());
                assert(k@ =~= t@.take(p as int));
                assert(v@ =~= t@.skip(p + 1));
                let key = trim_chars(&k);
                let val = trim_chars(&v);
                self.apply_setting(&key, &val);
            },
        }
    }

    fn apply_setting(&mut self, key: &Vec<char>, val: &Vec<char>)
        ensures
            final(self)@ == apply_setting(old(self)@, key@, val@),
    {
        if key_matches(key, "enabled") {
            self.enabled = match parse_bool_chars(val) {
                Some(b) => b,
                None => true,
            };
        } else if key_matches(key, "interval_mins") {
            self.interval_mins = match parse_u32_chars(val) {
                Some(v) => v,
                None => 30,
            };
        } else if key_matches(key, "volume") {
            let v = match parse_u32_chars(val) {
                Some(v) => v,
                None => 80,
            };
            self.volume = if v < 100 { v } else { 100 };
        } else if key_matches(key, "quiet_hours_enabled") {
            self.quiet_hours_enabled = match parse_bool_chars(val) {
                Some(b) => b,
                None => false,
            };
        } else if key_matches(key, "quiet_hours_rules") {
            self.quiet_hours_rules = string_of(val);
        } else if key_matches(key, "run_at_startup") {
            self.run_at_startup = match parse_bool_chars(val) {
                Some(b) => b,
                None => false,
            };
        } else if key_matches(key, "first_launch") {
            self.first_launch = match parse_bool_chars(val) {
                Some(b) => b,
                None => true,
            };
        }
    }

    /// The settings file's text: `[Settings]`, then one `key = value` line
    /// per setting, each line ended by a line break.
    pub fn to_ini_string(&self) -> (res: String)
        ensures
            res@ == ini_text(self@),
    {
        let mut lines: Vec<Vec<char>> = Vec::new();
        lines.push(chars_of("[Settings]"));
        lines.push(setting_chars("enabled", &bool_chars(self.enabled)));
        lines.push(setting_chars("interval_mins", &decimal_chars(self.interval_mins)));
        lines.push(setting_chars("volume", &decimal_chars(self.volume)));
        lines.push(setting_chars("quiet_hours_enabled", &bool_chars(self.quiet_hours_enabled)));
        lines.push(setting_chars("quiet_hours_rules", &chars_of(self.quiet_hours_rules.as_str())));
        lines.push(setting_chars("run_at_startup", &bool_chars(self.run_at_startup)));
        lines.push(setting_chars("first_launch", &bool_chars(self.first_launch)));
        lines.push(Vec::new());
        assert(views(lines@) =~= ini_lines(self@));
        let out = join_chars(&lines, '\n');
        string_of(&out)
    }
}


/// A setting name fit for the settings file: non-empty, no whitespace or
/// `=`, not starting a comment.
pub open spec fn plain_name(name: Seq<char>) -> bool {
    &&& name.len() >= 1
    &&& forall|i: int| 0 <= i < name.len() ==> !is_whitespace(#[trigger] name[i])
    &&& forall|i: int| 0 <= i < name.len() ==> #[trigger] name[i] != '='
    &&& name[0] != ';'
    &&& name[0] != '#'
}

/// A `name = value` line with a trimmed value sets that setting.
proof fn lemma_setting_line(c: ConfigView, name: Seq<char>, v: Seq<char>)
    requires
        plain_name(name),
        trim(v) == v,
    ensures
        apply_line(c, setting_line(name, v)) == apply_setting(c, name, v),
{
    let n = name.len() as int;
    let line = setting_line(name, v);
    assert(line[0] == name[0]);
    assert(trim_start(line) == line);
    let t = trim(line);
    if v.len() > 0 {
        lemma_trimmed_ends(v);
        assert(line.last() == v.last());
        assert(t == line);
    } else {
        let short = name + seq![' ', '='];
        assert(line.drop_last() =~= short);
        assert(line.last() == ' ');
        assert(trim_end(line) == trim_end(short));
        assert(short.last() == '=');
        assert(trim_end(short) == short);
        assert(t == short);
    }
    assert(t[n] == ' ' && t[n + 1] == '=');
    assert forall|j: int| 0 <= j < n + 1 implies t[j] != '=' by {
        if j < n {
            assert(t[j] == name[j]);
        }
    }
    lemma_index_of_at(t, '=', n + 1);
    let kpart = t.take(n + 1);
    assert(kpart =~= name.push(' '));
    assert(kpart[0] == name[0]);
    assert(trim_start(kpart) == kpart);
    assert(kpart.drop_last() =~= name);
    assert(name.last() == name[n - 1]);
    assert(trim_end(kpart) == trim_end(name));
    assert(trim(kpart) == name);
    let vpart = t.skip(n + 2);
    if v.len() > 0 {
        assert(vpart =~= seq![' '] + v);
        assert(vpart.drop_first() =~= v);
        assert(trim_start(vpart) == trim_start(v));
        assert(trim(vpart) == v);
    } else {
        assert(vpart =~= Seq::<char>::empty());
        assert(trim(vpart) =~= v);
    }
}

proof fn lemma_apply_lines_push(c: ConfigView, ls: Seq<Seq<char>>, l: Seq<char>)
    ensures
        apply_lines(c, ls.push(l)) == apply_line(apply_lines(c, ls), l),
{
    assert(ls.push(l).drop_last() =~= ls);
}

proof fn lemma_bool_value(b: bool)
    ensures
        trim(bool_text(b)) == bool_text(b),
        !bool_text(b).contains('\n'),
        parse_bool_spec(bool_text(b)) == Some(b),
{
    lemma_bool_text_plain(b);
    lemma_parse_bool_text(b);
    assert(bool_text(b).last() == bool_text(b)[bool_text(b).len() - 1]);
    lemma_trim_plain(bool_text(b));
}

proof fn lemma_decimal_value(n: u32)
    ensures
        trim(decimal(n as nat)) == decimal(n as nat),
        !decimal(n as nat).contains('\n'),
        parse_u32_spec(decimal(n as nat)) == Some(n),
{
    let d = decimal(n as nat);
    lemma_decimal_digits(n as nat);
    lemma_decimal_no_char(n as nat, '\n');
    lemma_parse_decimal(n);
    assert(is_digit(d[0]));
    assert(is_digit(d[d.len() - 1]));
    assert(d.last() == d[d.len() - 1]);
    lemma_trim_plain(d);
}

proof fn lemma_setting_line_no_break(name: Seq<char>, v: Seq<char>)
    requires
        !name.contains('\n'),
        !v.contains('\n'),
    ensures
        !setting_line(name, v).contains('\n'),
{
    let mid: Seq<char> = seq![' ', '=', ' '];
    assert(!mid.contains('\n')) by {
        if mid.contains('\n') {
            let k = choose|k: int| 0 <= k < mid.len() && mid[k] == '\n';
        }
    }
    lemma_no_char_concat(name, mid, '\n');
    lemma_no_char_concat(name + mid, v, '\n');
}

proof fn lemma_names()
    ensures
        plain_name("enabled"@),
        plain_name("interval_mins"@),
        plain_name("volume"@),
        plain_name("quiet_hours_enabled"@),
        plain_name("quiet_hours_rules"@),
        plain_name("run_at_startup"@),
        plain_name("first_launch"@),
        !"enabled"@.contains('\n'),
        !"interval_mins"@.contains('\n'),
        !"volume"@.contains('\n'),
        !"quiet_hours_enabled"@.contains('\n'),
        !"quiet_hours_rules"@.contains('\n'),
        !"run_at_startup"@.contains('\n'),
        !"first_launch"@.contains('\n'),
        key_is("enabled"@, "enabled"@),
        key_is("interval_mins"@, "interval_mins"@),
        key_is("volume"@, "volume"@),
        key_is("quiet_hours_enabled"@, "quiet_hours_enabled"@),
        key_is("quiet_hours_rules"@, "quiet_hours_rules"@),
        key_is("run_at_startup"@, "run_at_startup"@),
        key_is("first_launch"@, "first_launch"@),
        "enabled"@.len() == 7,
        "interval_mins"@.len() == 13,
        "volume"@.len() == 6,
        "quiet_hours_enabled"@.len() == 19,
        "quiet_hours_rules"@.len() == 17,
        "run_at_startup"@.len() == 14,
        "first_launch"@.len() == 12,
{
    reveal_strlit("enabled");
    reveal_strlit("interval_mins");
    reveal_strlit("volume");
    reveal_strlit("quiet_hours_enabled");
    reveal_strlit("quiet_hours_rules");
    reveal_strlit("run_at_startup");
    reveal_strlit("first_launch");
}

proof fn lemma_header_line(c: ConfigView)
    ensures
        apply_line(c, "[Settings]"@) == c,
        !"[Settings]"@.contains('\n'),
{
    reveal_strlit("[Settings]");
    let h = "[Settings]"@;
    assert(h.last() == ']');
    lemma_trim_plain(h);
    assert(!h.contains('='));
    lemma_index_of_none(h, '=');
}

/// Writing settings to their file text and reading that text back gives
/// the same settings, when the volume is at most 100 (reading caps it) and
/// the rule list holds no line break and no surrounding whitespace.
pub proof fn lemma_config_round_trip(c: ConfigView)
    requires
        c.volume <= 100,
        !c.quiet_hours_rules.contains('\n'),
        trim(c.quiet_hours_rules) == c.quiet_hours_rules,
    ensures
        config_from_text(ini_text(c)) == c,
{
    lemma_names();
    lemma_bool_value(c.enabled);
    lemma_bool_value(c.quiet_hours_enabled);
    lemma_bool_value(c.run_at_startup);
    lemma_bool_value(c.first_launch);
    lemma_decimal_value(c.interval_mins);
    lemma_decimal_value(c.volume);
    let ls = ini_lines(c);
    lemma_header_line(default_config());
    lemma_setting_line_no_break("enabled"@, bool_text(c.enabled));
    lemma_setting_line_no_break("interval_mins"@, decimal(c.interval_mins as nat));
    lemma_setting_line_no_break("volume"@, decimal(c.volume as nat));
    lemma_setting_line_no_break("quiet_hours_enabled"@, bool_text(c.quiet_hours_enabled));
    lemma_setting_line_no_break("quiet_hours_rules"@, c.quiet_hours_rules);
    lemma_setting_line_no_break("run_at_startup"@, bool_text(c.run_at_startup));
    lemma_setting_line_no_break("first_launch"@, bool_text(c.first_launch));
    assert(!Seq::<char>::empty().contains('\n'));
    assert forall|i: int| 0 <= i < ls.len() implies !(#[trigger] ls[i]).contains('\n') by {
        if i == 0 {
        } else if i == 1 {
        } else if i == 2 {
        } else if i == 3 {
        } else if i == 4 {
        } else if i == 5 {
        } else if i == 6 {
        } else if i == 7 {
        } else {
        }
    }
    lemma_split_join(ls, '\n');
    let d = default_config();
    let s0: Seq<Seq<char>> = Seq::empty();
    let s1 = s0.push(ls[0]);
    lemma_apply_lines_push(d, s0, ls[0]);
    let c1 = apply_lines(d, s1);
    assert(c1 == d);
    let s2 = s1.push(ls[1]);
    lemma_apply_lines_push(d, s1, ls[1]);
    lemma_setting_line(c1, "enabled"@, bool_text(c.enabled));
    let c2 = apply_lines(d, s2);
    assert(c2 == ConfigView { enabled: c.enabled, ..d });
    let s3 = s2.push(ls[2]);
    lemma_apply_lines_push(d, s2, ls[2]);
    lemma_setting_line(c2, "interval_mins"@, decimal(c.interval_mins as nat));
    let c3 = apply_lines(d, s3);
    assert(c3 == ConfigView { interval_mins: c.interval_mins, ..c2 });
    let s4 = s3.push(ls[3]);
    lemma_apply_lines_push(d, s3, ls[3]);
    lemma_setting_line(c3, "volume"@, decimal(c.volume as nat));
    let c4 = apply_lines(d, s4);
    assert(c4 == ConfigView { volume: c.volume, ..c3 });
    let s5 = s4.push(ls[4]);
    lemma_apply_lines_push(d, s4, ls[4]);
    lemma_setting_line(c4, "quiet_hours_enabled"@, bool_text(c.quiet_hours_enabled));
    let c5 = apply_lines(d, s5);
    assert(c5 == ConfigView { quiet_hours_enabled: c.quiet_hours_enabled, ..c4 });
    let s6 = s5.push(ls[5]);
    lemma_apply_lines_push(d, s5, ls[5]);
    lemma_setting_line(c5, "quiet_hours_rules"@, c.quiet_hours_rules);
    let c6 = apply_lines(d, s6);
    assert(c6 == ConfigView { quiet_hours_rules: c.quiet_hours_rules, ..c5 });
    let s7 = s6.push(ls[6]);
    lemma_apply_lines_push(d, s6, ls[6]);
    lemma_setting_line(c6, "run_at_startup"@, bool_text(c.run_at_startup));
    let c7 = apply_lines(d, s7);
    assert(c7 == ConfigView { run_at_startup: c.run_at_startup, ..c6 });
    let s8 = s7.push(ls[7]);
    lemma_apply_lines_push(d, s7, ls[7]);
    lemma_setting_line(c7, "first_launch"@, bool_text(c.first_launch));
    let c8 = apply_lines(d, s8);
    assert(c8 =~= c);
    let s9 = s8.push(ls[8]);
    lemma_apply_lines_push(d, s8, ls[8]);
    assert(trim(ls[8]) =~= Seq::<char>::empty());
    assert(s9 =~= ls);
}

} // verus!
