use vstd::prelude::*;

use crate::labels::{join_labels, label_bounds, octets_exceed, split_labels, utf8_len};

verus! {

/// What went wrong with a label, or with the whole domain.
#[derive(Clone, Copy, Debug, PartialEq, Eq)]
pub enum ErrorKind {
    /// A code point that the profile disallows, a bad mapping or a label
    /// that starts with a combining mark.
    InvalidCodePoint,
    /// A leading or trailing hyphen, or an empty label where none may stand.
    DisallowedLabelStructure,
    /// An `xn--` label whose Punycode payload does not decode.
    PunycodeDecodeFailure,
    /// A label that breaks the Bidi rule.
    BidiViolation,
    /// A label over 63 octets or a domain over 253 octets.
    LengthLimitExceeded,
}

/// One diagnostic: its kind and the index of the offending label, or `None`
/// where it concerns the whole domain.
#[derive(Clone, Copy, Debug, PartialEq, Eq)]
pub struct LabelError {
    pub kind: ErrorKind,
    pub label_index: Option<usize>,
}

/// Every diagnostic of one conversion, in label order.
#[derive(Clone, Debug, PartialEq, Eq)]
pub struct ConversionErrors {
    pub errors: Vec<LabelError>,
}

/// The flags of a conversion.
#[derive(Clone, Copy, Debug, PartialEq, Eq)]
pub struct ProcessingConfig {
    /// Map the deviation code points as IDNA 2003 did.
    pub transitional_processing: bool,
    /// Reject the ASCII symbols that STD3 disallows, and hyphens at a
    /// label's edge.
    pub use_std3_ascii_rules: bool,
    /// Enforce the DNS limits: no empty label but the root, labels of at most
    /// 63 octets, domains of at most 253.
    pub verify_dns_length: bool,
}

impl Default for ProcessingConfig {
    /// The non-transitional, strict profile.
    fn default() -> (r: Self)
        ensures
            !r.transitional_processing,
            r.use_std3_ascii_rules,
            r.verify_dns_length,
    {
        ProcessingConfig {
            transitional_processing: false,
            use_std3_ascii_rules: true,
            verify_dns_length: true,
        }
    }
}

/// What UTS #46 ToASCII makes of one label: its ACE form, or the text that
/// names the checks that failed.
pub uninterp spec fn uts46_to_ascii(transitional: bool, std3: bool, label: Seq<char>) -> Result<
    Seq<char>,
    Seq<char>,
>;

/// What UTS #46 ToUnicode makes of one label: its mapped Unicode form, and the
/// text that names the checks that failed, if any did.
pub uninterp spec fn uts46_to_unicode(transitional: bool, std3: bool, label: Seq<char>) -> (
    Seq<char>,
    Option<Seq<char>>,
);

pub open spec fn text_result(r: Result<String, String>) -> Result<Seq<char>, Seq<char>> {
    match r {
        Ok(s) => Ok(s@),
        Err(e) => Err(e@),
    }
}

pub open spec fn text_option(r: Option<String>) -> Option<Seq<char>> {
    match r {
        Some(s) => Some(s@),
        None => None,
    }
}

/// Relies on `idna::Config::to_ascii` (idna 0.5), with hyphen and DNS length
/// checks off: the ACE form of the label, or on failure the text that the
/// `Debug` impl of `idna::Errors` writes, which names each check that failed.
#[verifier::external_body]
fn idna_to_ascii(label: &str, transitional: bool, std3: bool) -> (r: Result<String, String>)
    ensures
        text_result(r) == uts46_to_ascii(transitional, std3, label@),
{
    let config = idna::Config::default().transitional_processing(transitional).use_std3_ascii_rules(
        std3,
    );
    match config.to_ascii(label) {
        Ok(s) => Ok(s),
        Err(e) => Err(format!("{:?}", e)),
    }
}

/// Relies on `idna::Config::to_unicode` (idna 0.5), with hyphen checks off:
/// the mapped label, and on failure the text that the `Debug` impl of
/// `idna::Errors` writes, which names each check that failed.
#[verifier::external_body]
fn idna_to_unicode(label: &str, transitional: bool, std3: bool) -> (r: (String, Option<String>))
    ensures
        (r.0@, text_option(r.1)) == uts46_to_unicode(transitional, std3, label@),
{
    let config = idna::Config::default().transitional_processing(transitional).use_std3_ascii_rules(
        std3,
    );
    match config.to_unicode(label) {
        (s, Ok(())) => (s, None),
        (s, Err(e)) => (s, Some(format!("{:?}", e))),
    }
}

/// `w` occurs in `text`.
pub open spec fn mentions(text: Seq<char>, w: Seq<char>) -> bool {
    exists|i: int| 0 <= i && i + w.len() <= text.len() && #[trigger] text.subrange(i, i + w.len()) == w
}

pub open spec fn kind_if(b: bool, k: ErrorKind) -> Seq<ErrorKind> {
    if b {
        seq![k]
    } else {
        Seq::empty()
    }
}

pub open spec fn names_code_point_check(text: Seq<char>) -> bool {
    mentions(text, "disallowed"@) || mentions(text, "start_combining_mark"@) || mentions(
        text,
        "invalid_mapping"@,
    ) || mentions(text, "nfc"@)
}

pub open spec fn names_length_check(text: Seq<char>) -> bool {
    mentions(text, "too_long_for_dns"@) || mentions(text, "too_short_for_dns"@)
}

/// The kinds of the checks that a failure text names, each once, in the order
/// of `ErrorKind`; a failure that names none of them counts as an invalid
/// code point.
pub open spec fn error_kinds(text: Seq<char>) -> Seq<ErrorKind> {
    let hy = mentions(text, "check_hyphens"@);
    let pu = mentions(text, "punycode"@);
    let bi = mentions(text, "check_bidi"@);
    let le = names_length_check(text);
    let cp = names_code_point_check(text) || !(hy || pu || bi || le);
    kind_if(cp, ErrorKind::InvalidCodePoint) + kind_if(hy, ErrorKind::DisallowedLabelStructure)
        + kind_if(pu, ErrorKind::PunycodeDecodeFailure) + kind_if(bi, ErrorKind::BidiViolation)
        + kind_if(le, ErrorKind::LengthLimitExceeded)
}

/// Whether `w` occurs in `text`.
pub fn mentions_word(text: &str, w: &str) -> (r: bool)
    ensures
        r == mentions(text@, w@),
{
    let n = text.unicode_len();
    let m = w.unicode_len();
    if m > n {
        return false;
    }
    let mut i: usize = 0;
    while i <= n - m
        invariant
            n == text@.len(),
            m == w@.len(),
            m <= n,
            forall|k: int| 0 <= k < i ==> #[trigger] text@.subrange(k, k + m) != w@,
        decreases n - m + 1 - i,
    {
        let mut j: usize = 0;
        while j < m && text.get_char(i + j) == w.get_char(j)
            invariant
                n == text@.len(),
                m == w@.len(),
                i + m <= n,
                j <= m,
                forall|q: int| 0 <= q < j ==> text@[i + q] == w@[q],
            decreases m - j,
        {
            j = j + 1;
        }
        if j == m {
            assert(text@.subrange(i as int, i + m) =~= w@);
            return true;
        }
        assert(text@.subrange(i as int, i + m)[j as int] != w@[j as int]);
        i = i + 1;
    }
    false
}

/// The kinds of the checks that a failure text of the UTS #46 engine names.
pub fn error_kinds_of(text: &str) -> (r: Vec<ErrorKind>)
    ensures
        r@ == error_kinds(text@),
{
    let hy = mentions_word(text, "check_hyphens");
    let pu = mentions_word(text, "punycode");
    let bi = mentions_word(text, "check_bidi");
    let le = mentions_word(text, "too_long_for_dns") || mentions_word(text, "too_short_for_dns");
    let cp = mentions_word(text, "disallowed") || mentions_word(text, "start_combining_mark")
        || mentions_word(text, "invalid_mapping") || mentions_word(text, "nfc");
    let cp = cp || !(hy || pu || bi || le);
    let mut r: Vec<ErrorKind> = Vec::new();
    if cp {
        r.push(ErrorKind::InvalidCodePoint);
    }
    if hy {
        r.push(ErrorKind::DisallowedLabelStructure);
    }
    if pu {
        r.push(ErrorKind::PunycodeDecodeFailure);
    }
    if bi {
        r.push(ErrorKind::BidiViolation);
    }
    if le {
        r.push(ErrorKind::LengthLimitExceeded);
    }
    assert(r@ =~= error_kinds(text@));
    r
}

pub open spec fn hyphen_at_edge(label: Seq<char>) -> bool {
    label.len() > 0 && (label[0] == '-' || label.last() == '-')
}

/// The structural faults of a label that the configuration forbids.
pub open spec fn structure_errors(config: ProcessingConfig, label: Seq<char>) -> Seq<ErrorKind> {
    kind_if(config.use_std3_ascii_rules && hyphen_at_edge(label), ErrorKind::DisallowedLabelStructure)
}

/// The ACE form of a label and its faults, given what UTS #46 ToASCII made of
/// it; `is_root` says that an empty label is the final one of several.
pub open spec fn ascii_label_from(
    config: ProcessingConfig,
    label: Seq<char>,
    is_root: bool,
    converted: Result<Seq<char>, Seq<char>>,
) -> (Seq<char>, Seq<ErrorKind>) {
    if label.len() == 0 {
        (
            Seq::empty(),
            kind_if(config.verify_dns_length && !is_root, ErrorKind::DisallowedLabelStructure),
        )
    } else {
        match converted {
            Ok(out) => (
                out,
                structure_errors(config, label) + kind_if(
                    config.verify_dns_length && utf8_len(out) > 63,
                    ErrorKind::LengthLimitExceeded,
                ),
            ),
            Err(text) => (Seq::empty(), structure_errors(config, label) + error_kinds(text)),
        }
    }
}

pub open spec fn ascii_label(config: ProcessingConfig, label: Seq<char>, is_root: bool) -> (
    Seq<char>,
    Seq<ErrorKind>,
) {
    ascii_label_from(
        config,
        label,
        is_root,
        uts46_to_ascii(config.transitional_processing, config.use_std3_ascii_rules, label),
    )
}

/// The Unicode form of a label and its faults, given what UTS #46 ToUnicode
/// made of it.
pub open spec fn unicode_label_from(
    config: ProcessingConfig,
    label: Seq<char>,
    converted: (Seq<char>, Option<Seq<char>>),
) -> (Seq<char>, Seq<ErrorKind>) {
    if label.len() == 0 {
        (Seq::empty(), Seq::empty())
    } else {
        (
            converted.0,
            structure_errors(config, label) + match converted.1 {
                Some(text) => error_kinds(text),
                None => Seq::empty(),
            },
        )
    }
}

pub open spec fn unicode_label(config: ProcessingConfig, label: Seq<char>) -> (
    Seq<char>,
    Seq<ErrorKind>,
) {
    unicode_label_from(
        config,
        label,
        uts46_to_unicode(config.transitional_processing, config.use_std3_ascii_rules, label),
    )
}

/// The final label of several, which stands for the root where it is empty.
pub open spec fn is_root_label(ls: Seq<Seq<char>>, i: int) -> bool {
    ls.len() > 1 && i == ls.len() - 1
}

pub open spec fn tagged(kinds: Seq<ErrorKind>, i: int) -> Seq<LabelError> {
    kinds.map_values(|k: ErrorKind| LabelError { kind: k, label_index: Some(i as usize) })
}

pub open spec fn ascii_outputs(config: ProcessingConfig, ls: Seq<Seq<char>>) -> Seq<Seq<char>> {
    Seq::new(ls.len(), |i: int| ascii_label(config, ls[i], is_root_label(ls, i)).0)
}

/// The faults of the first `k` labels, each tagged with its label's index.
pub open spec fn ascii_label_errors(config: ProcessingConfig, ls: Seq<Seq<char>>, k: int) -> Seq<
    LabelError,
>
    decreases k,
{
    if k <= 0 {
        Seq::empty()
    } else {
        ascii_label_errors(config, ls, k - 1) + tagged(
            ascii_label(config, ls[k - 1], is_root_label(ls, k - 1)).1,
            k - 1,
        )
    }
}

pub open spec fn domain_length_errors(config: ProcessingConfig, joined: Seq<char>) -> Seq<
    LabelError,
> {
    if config.verify_dns_length && utf8_len(joined) > 253 {
        seq![LabelError { kind: ErrorKind::LengthLimitExceeded, label_index: None }]
    } else {
        Seq::empty()
    }
}

/// All faults of a ToASCII conversion of `s`.
pub open spec fn ascii_errors(config: ProcessingConfig, s: Seq<char>) -> Seq<LabelError> {
    let ls = split_labels(s);
    ascii_label_errors(config, ls, ls.len() as int) + domain_length_errors(
        config,
        join_labels(ascii_outputs(config, ls)),
    )
}

/// ToASCII of a domain: the joined ACE labels, or every fault found.
pub open spec fn ascii_result(config: ProcessingConfig, s: Seq<char>) -> Result<
    Seq<char>,
    Seq<LabelError>,
> {
    let errs = ascii_errors(config, s);
    if errs.len() == 0 {
        Ok(join_labels(ascii_outputs(config, split_labels(s))))
    } else {
        Err(errs)
    }
}

pub open spec fn unicode_outputs(config: ProcessingConfig, ls: Seq<Seq<char>>) -> Seq<Seq<char>> {
    Seq::new(ls.len(), |i: int| unicode_label(config, ls[i]).0)
}

pub open spec fn unicode_label_errors(config: ProcessingConfig, ls: Seq<Seq<char>>, k: int) -> Seq<
    LabelError,
>
    decreases k,
{
    if k <= 0 {
        Seq::empty()
    } else {
        unicode_label_errors(config, ls, k - 1) + tagged(unicode_label(config, ls[k - 1]).1, k - 1)
    }
}

/// ToUnicode of a domain: the joined Unicode labels and every fault found.
pub open spec fn unicode_result(config: ProcessingConfig, s: Seq<char>) -> (
    Seq<char>,
    Seq<LabelError>,
) {
    let ls = split_labels(s);
    (join_labels(unicode_outputs(config, ls)), unicode_label_errors(config, ls, ls.len() as int))
}

pub open spec fn conversion_view(r: Result<String, ConversionErrors>) -> Result<
    Seq<char>,
    Seq<LabelError>,
> {
    match r {
        Ok(s) => Ok(s@),
        Err(e) => Err(e.errors@),
    }
}

/// The ACE form of one label and its faults, from what UTS #46 ToASCII made
/// of it.
pub fn finish_ascii_label(
    config: ProcessingConfig,
    label: &str,
    is_root: bool,
    converted: Result<String, String>,
) -> (r: (String, Vec<ErrorKind>))
    ensures
        (r.0@, r.1@) == ascii_label_from(config, label@, is_root, text_result(converted)),
{
    let mut kinds: Vec<ErrorKind> = Vec::new();
    if label.unicode_len() == 0 {
        if config.verify_dns_length && !is_root {
            kinds.push(ErrorKind::DisallowedLabelStructure);
        }
        assert(kinds@ =~= ascii_label_from(config, label@, is_root, text_result(converted)).1);
        return (String::new(), kinds);
    }
    push_structure_errors(config, label, &mut kinds);
    let ghost first = kinds@;
    match converted {
        Ok(out) => {
            if config.verify_dns_length && octets_exceed(out.as_str(), 63) {
                kinds.push(ErrorKind::LengthLimitExceeded);
            }
            assert(kinds@ =~= first + kind_if(
                config.verify_dns_length && utf8_len(out@) > 63,
                ErrorKind::LengthLimitExceeded,
            ));
            (out, kinds)
        },
        Err(text) => {
            let mut found = error_kinds_of(text.as_str());
            kinds.append(&mut found);
            (String::new(), kinds)
        },
    }
}

fn push_structure_errors(config: ProcessingConfig, label: &str, kinds: &mut Vec<ErrorKind>)
    requires
        old(kinds)@.len() == 0,
        label@.len() > 0,
    ensures
        final(kinds)@ == structure_errors(config, label@),
{
    let n = label.unicode_len();
    if config.use_std3_ascii_rules && (label.get_char(0) == '-' || label.get_char(n - 1) == '-') {
        kinds.push(ErrorKind::DisallowedLabelStructure);
    }
    assert(kinds@ =~= structure_errors(config, label@));
}

/// The Unicode form of one label and its faults, from what UTS #46 ToUnicode
/// made of it.
pub fn finish_unicode_label(
    config: ProcessingConfig,
    label: &str,
    converted: (String, Option<String>),
) -> (r: (String, Vec<ErrorKind>))
    ensures
        (r.0@, r.1@) == unicode_label_from(config, label@, (converted.0@, text_option(converted.1))),
{
    let mut kinds: Vec<ErrorKind> = Vec::new();
    if label.unicode_len() == 0 {
        assert(kinds@ =~= Seq::<ErrorKind>::empty());
        return (String::new(), kinds);
    }
    push_structure_errors(config, label, &mut kinds);
    let (out, failure) = converted;
    match failure {
        Some(text) => {
            let mut found = error_kinds_of(text.as_str());
            kinds.append(&mut found);
        },
        None => {
            assert(kinds@ =~= kinds@ + Seq::<ErrorKind>::empty());
        },
    }
    (out, kinds)
}

fn push_tagged(errors: &mut Vec<LabelError>, kinds: &Vec<ErrorKind>, index: usize)
    ensures
        final(errors)@ == old(errors)@ + tagged(kinds@, index as int),
{
    let ghost start = errors@;
    let mut j: usize = 0;
    while j < kinds.len()
        invariant
            j <= kinds@.len(),
            errors@ == start + tagged(kinds@.take(j as int), index as int),
        decreases kinds@.len() - j,
    {
        errors.push(LabelError { kind: kinds[j], label_index: Some(index) });
        assert(tagged(kinds@.take(j + 1), index as int) =~= tagged(kinds@.take(j as int), index as int).push(
            LabelError { kind: kinds@[j as int], label_index: Some(index) },
        ));
        j = j + 1;
    }
    assert(kinds@.take(kinds@.len() as int) =~= kinds@);
}

proof fn lemma_join_take(xs: Seq<Seq<char>>, k: int)
    requires
        0 <= k < xs.len(),
    ensures
        join_labels(xs.take(k + 1)) == if k == 0 {
            xs[0]
        } else {
            join_labels(xs.take(k)).push('.') + xs[k]
        },
{
    assert(xs.take(k + 1).drop_last() =~= xs.take(k));
}

/// ToASCII of a domain: the ACE form of each label, joined with U+002E, or
/// every fault of every label, and of the domain's length, in label order.
pub fn to_ascii(input: &str, config: ProcessingConfig) -> (r: Result<String, ConversionErrors>)
    ensures
        conversion_view(r) == ascii_result(config, input@),
{
    let bounds = label_bounds(input);
    let ghost ls = split_labels(input@);
    let ghost outs = ascii_outputs(config, ls);
    let n = bounds.len();
    let mut joined = String::new();
    let mut errors: Vec<LabelError> = Vec::new();
    let mut k: usize = 0;
    assert(outs.take(0) =~= Seq::<Seq<char>>::empty());
    while k < n
        invariant
            n == bounds@.len() == ls.len() == outs.len(),
            k <= n,
            ls == split_labels(input@),
            outs == ascii_outputs(config, ls),
            forall|i: int|
                0 <= i < bounds@.len() ==> {
                    let (a, b) = #[trigger] bounds@[i];
                    a <= b <= input@.len() && input@.subrange(a as int, b as int) == ls[i]
                },
            joined@ == join_labels(outs.take(k as int)),
            errors@ == ascii_label_errors(config, ls, k as int),
        decreases n - k,
    {
        let (a, b) = bounds[k];
        let label = input.substring_char(a, b);
        let is_root = n > 1 && k == n - 1;
        let converted = if a < b {
            idna_to_ascii(label, config.transitional_processing, config.use_std3_ascii_rules)
        } else {
            Ok(String::new())
        };
        let (piece, kinds) = finish_ascii_label(config, label, is_root, converted);
        assert(label@ == ls[k as int]);
        let ghost before = joined@;
        proof {
            lemma_join_take(outs, k as int);
            reveal_strlit(".");
        }
        assert(piece@ == outs[k as int]);
        if k > 0 {
            joined.append(".");
        }
        joined.append(piece.as_str());
        if k > 0 {
            assert(joined@ =~= before.push('.') + piece@);
        } else {
            assert(joined@ =~= piece@);
        }
        push_tagged(&mut errors, &kinds, k);
        k = k + 1;
    }
    assert(outs.take(n as int) =~= outs);
    if config.verify_dns_length && octets_exceed(joined.as_str(), 253) {
        errors.push(LabelError { kind: ErrorKind::LengthLimitExceeded, label_index: None });
    }
    assert(errors@ =~= ascii_errors(config, input@));
    if errors.len() == 0 {
        Ok(joined)
    } else {
        Err(ConversionErrors { errors })
    }
}

/// ToUnicode of a domain: the Unicode form of each label, joined with U+002E,
/// and every fault of every label in label order. A label at fault still
/// contributes its mapped form.
pub fn to_unicode(input: &str, config: ProcessingConfig) -> (r: (String, ConversionErrors))
    ensures
        (r.0@, r.1.errors@) == unicode_result(config, input@),
{
    let bounds = label_bounds(input);
    let ghost ls = split_labels(input@);
    let ghost outs = unicode_outputs(config, ls);
    let n = bounds.len();
    let mut joined = String::new();
    let mut errors: Vec<LabelError> = Vec::new();
    let mut k: usize = 0;
    assert(outs.take(0) =~= Seq::<Seq<char>>::empty());
    while k < n
        invariant
            n == bounds@.len() == ls.len() == outs.len(),
            k <= n,
            ls == split_labels(input@),
            outs == unicode_outputs(config, ls),
            forall|i: int|
                0 <= i < bounds@.len() ==> {
                    let (a, b) = #[trigger] bounds@[i];
                    a <= b <= input@.len() && input@.subrange(a as int, b as int) == ls[i]
                },
            joined@ == join_labels(outs.take(k as int)),
            errors@ == unicode_label_errors(config, ls, k as int),
        decreases n - k,
    {
        let (a, b) = bounds[k];
        let label = input.substring_char(a, b);
        let converted = if a < b {
            idna_to_unicode(label, config.transitional_processing, config.use_std3_ascii_rules)
        } else {
            (String::new(), None)
        };
        let (piece, kinds) = finish_unicode_label(config, label, converted);
        assert(label@ == ls[k as int]);
        let ghost before = joined@;
        proof {
            lemma_join_take(outs, k as int);
            reveal_strlit(".");
        }
        assert(piece@ == outs[k as int]);
        if k > 0 {
            joined.append(".");
        }
        joined.append(piece.as_str());
        if k > 0 {
            assert(joined@ =~= before.push('.') + piece@);
        } else {
            assert(joined@ =~= piece@);
        }
        push_tagged(&mut errors, &kinds, k);
        k = k + 1;
    }
    assert(outs.take(n as int) =~= outs);
    (joined, ConversionErrors { errors })
}

proof fn lemma_label_errors_contain(config: ProcessingConfig, ls: Seq<Seq<char>>, k: int, i: int, j: int)
    requires
        0 <= i < k <= ls.len(),
        0 <= j < ascii_label(config, ls[i], is_root_label(ls, i)).1.len(),
    ensures
        exists|m: int|
            0 <= m < ascii_label_errors(config, ls, k).len() && #[trigger] ascii_label_errors(
                config,
                ls,
                k,
            )[m] == (LabelError {
                kind: ascii_label(config, ls[i], is_root_label(ls, i)).1[j],
                label_index: Some(i as usize),
            }),
    decreases k,
{
    let prev = ascii_label_errors(config, ls, k - 1);
    let all = ascii_label_errors(config, ls, k);
    if i == k - 1 {
        assert(all[prev.len() + j] == tagged(ascii_label(config, ls[i], is_root_label(ls, i)).1, i)[j]);
    } else {
        lemma_label_errors_contain(config, ls, k - 1, i, j);
        let m = choose|m: int|
            0 <= m < prev.len() && #[trigger] prev[m] == (LabelError {
                kind: ascii_label(config, ls[i], is_root_label(ls, i)).1[j],
                label_index: Some(i as usize),
            });
        assert(all[m] == prev[m]);
    }
}

/// With DNS lengths verified, a successful ToASCII conversion has no ACE label
/// over 63 octets and no more than 253 octets in all; a label over 63 octets,
/// or a domain over 253, makes it fail with `LengthLimitExceeded`.
pub proof fn lemma_dns_length(config: ProcessingConfig, s: Seq<char>)
    requires
        config.verify_dns_length,
    ensures
        ({
            let outs = ascii_outputs(config, split_labels(s));
            &&& (exists|i: int| 0 <= i < outs.len() && utf8_len(#[trigger] outs[i]) > 63) ==> exists|
                m: int,
            |
                0 <= m < ascii_errors(config, s).len() && (#[trigger] ascii_errors(config, s)[m]).kind
                    == ErrorKind::LengthLimitExceeded
            &&& utf8_len(join_labels(outs)) > 253 ==> ascii_errors(config, s).contains(
                LabelError { kind: ErrorKind::LengthLimitExceeded, label_index: None },
            )
            &&& ascii_result(config, s) is Ok ==> {
                &&& forall|i: int| 0 <= i < outs.len() ==> utf8_len(#[trigger] outs[i]) <= 63
                &&& utf8_len(ascii_result(config, s)->Ok_0) <= 253
            }
        }),
{
    let ls = split_labels(s);
    let outs = ascii_outputs(config, ls);
    let n = ls.len() as int;
    let errs = ascii_errors(config, s);
    let label_errs = ascii_label_errors(config, ls, n);
    assert(errs == label_errs + domain_length_errors(config, join_labels(outs)));
    if exists|i: int| 0 <= i < outs.len() && utf8_len(#[trigger] outs[i]) > 63 {
        let i = choose|i: int| 0 <= i < outs.len() && utf8_len(#[trigger] outs[i]) > 63;
        let kinds = ascii_label(config, ls[i], is_root_label(ls, i)).1;
        assert(kinds.last() == ErrorKind::LengthLimitExceeded);
        lemma_label_errors_contain(config, ls, n, i, kinds.len() - 1);
        let m = choose|m: int|
            0 <= m < label_errs.len() && #[trigger] label_errs[m] == (LabelError {
                kind: kinds[kinds.len() - 1],
                label_index: Some(i as usize),
            });
        assert(errs[m] == label_errs[m]);
    }
    if utf8_len(join_labels(outs)) > 253 {
        assert(errs[errs.len() - 1] == LabelError {
            kind: ErrorKind::LengthLimitExceeded,
            label_index: None,
        });
    }
}

} // verus!
