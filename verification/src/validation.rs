//! Validation of products against the rules: required fields, formats,
//! ranges and user checks.
use vstd::prelude::*;
use crate::models::{ProductView, ShopifyProduct};
use crate::decimal::{below_hundredths, above_hundredths, float_text, range_verdict, FloatText};
use crate::numfmt::{cents_text, format_cents};
use crate::patterns::{is_match, regex_matches};
use crate::rules::{
    field_present, field_present_spec, field_value, field_value_spec, CustomValidator,
    FieldFormat, FieldRange, ValidationError, ValidationErrorType, ValidationRules,
};
use crate::text::{concat_str, copy_str};

verus! {

/// Why the pipeline stopped.
#[derive(Debug, Clone, Copy, PartialEq, Eq, Structural)]
pub enum WranglingError {
    /// The regex crate refused one of the rules' patterns.
    PatternRejected,
}

/// The contents of a validation failure.
pub struct ErrorView {
    pub field: Seq<char>,
    pub error_type: ValidationErrorType,
    pub message: Seq<char>,
    pub record_id: Seq<char>,
}

impl View for ValidationError {
    type V = ErrorView;

    open spec fn view(&self) -> ErrorView {
        ErrorView {
            field: self.field@,
            error_type: self.error_type,
            message: self.message@,
            record_id: self.record_id@,
        }
    }
}

/// The contents of a list of failures.
pub open spec fn errors_view(v: Seq<ValidationError>) -> Seq<ErrorView> {
    v.map_values(|e: ValidationError| e@)
}

/// The contents of a list of products.
pub open spec fn products_view(v: Seq<ShopifyProduct>) -> Seq<ProductView> {
    v.map_values(|p: ShopifyProduct| p@)
}

/// `Required field '<field>' is missing`.
pub open spec fn missing_message(field: Seq<char>) -> Seq<char> {
    "Required field '"@ + field + "' is missing"@
}

/// One failure for each required field that is not present, in order.
pub open spec fn required_errors(p: ProductView, fields: Seq<String>) -> Seq<ErrorView>
    decreases fields.len(),
{
    if fields.len() == 0 {
        seq![]
    } else {
        let prev = required_errors(p, fields.drop_last());
        let f = fields.last()@;
        if field_present_spec(p, f) {
            prev
        } else {
            prev.push(ErrorView { field: f, error_type: ValidationErrorType::MissingRequired, message: missing_message(f), record_id: p.id })
        }
    }
}

/// One failure for each field with a format whose text the format does not
/// match, the message being the pattern; `None` when the regex crate
/// refuses a pattern it is asked to apply.
pub open spec fn format_errors(p: ProductView, formats: Seq<(String, FieldFormat)>) -> Option<Seq<ErrorView>>
    decreases formats.len(),
{
    if formats.len() == 0 {
        Some(seq![])
    } else {
        match format_errors(p, formats.drop_last()) {
            None => None,
            Some(prev) => {
                let f = formats.last().0@;
                let pattern = formats.last().1.pattern@;
                match field_value_spec(p, f) {
                    None => Some(prev),
                    Some(v) => match regex_matches(pattern, v) {
                        None => None,
                        Some(true) => Some(prev),
                        Some(false) => Some(prev.push(ErrorView { field: f, error_type: ValidationErrorType::InvalidFormat, message: pattern, record_id: p.id })),
                    },
                }
            },
        }
    }
}

/// `Value <v> below minimum <m>`: the value as written in the field, the
/// bound as a price.
pub open spec fn below_message(v: Seq<char>, m: i64) -> Seq<char> {
    "Value "@ + v + " below minimum "@ + cents_text(m as int)
}

/// `Value <v> above maximum <m>`.
pub open spec fn above_message(v: Seq<char>, m: i64) -> Seq<char> {
    "Value "@ + v + " above maximum "@ + cents_text(m as int)
}

/// The failures of the number `x`, written `v`, against one range (its
/// bounds in hundredths, compared exactly): below the minimum, then above
/// the maximum.
pub open spec fn bound_errors(p: ProductView, f: Seq<char>, v: Seq<char>, x: FloatText, r: FieldRange) -> Seq<ErrorView> {
    let low = match r.min_value {
        Some(m) => if below_hundredths(x, m as int) {
            seq![ErrorView { field: f, error_type: ValidationErrorType::OutOfRange, message: below_message(v, m), record_id: p.id }]
        } else {
            seq![]
        },
        None => seq![],
    };
    let high = match r.max_value {
        Some(m) => if above_hundredths(x, m as int) {
            seq![ErrorView { field: f, error_type: ValidationErrorType::OutOfRange, message: above_message(v, m), record_id: p.id }]
        } else {
            seq![]
        },
        None => seq![],
    };
    low + high
}

/// The range failures: for each field with a range whose text writes a
/// number as `str::parse::<f64>` reads it (digits, point, exponent,
/// infinities, NaN), its failures against that range; the number is
/// compared exactly, NaN lies in every range.
pub open spec fn range_errors(p: ProductView, ranges: Seq<(String, FieldRange)>) -> Seq<ErrorView>
    decreases ranges.len(),
{
    if ranges.len() == 0 {
        seq![]
    } else {
        let prev = range_errors(p, ranges.drop_last());
        let f = ranges.last().0@;
        match field_value_spec(p, f) {
            None => prev,
            Some(v) => match float_text(v) {
                None => prev,
                Some(x) => prev + bound_errors(p, f, v, x, ranges.last().1),
            },
        }
    }
}

/// One failure for each custom check that rejects its field's text.
pub open spec fn custom_errors(p: ProductView, validators: Seq<CustomValidator>) -> Seq<ErrorView>
    decreases validators.len(),
{
    if validators.len() == 0 {
        seq![]
    } else {
        let prev = custom_errors(p, validators.drop_last());
        let c = validators.last();
        match field_value_spec(p, c.field@) {
            None => prev,
            Some(v) => if c.validator.accepts(v) {
                prev
            } else {
                prev.push(ErrorView { field: c.field@, error_type: ValidationErrorType::InvalidFormat, message: c.error_message@, record_id: p.id })
            },
        }
    }
}

/// All failures of a product: required fields, formats, ranges, custom
/// checks, in that order; `None` when a format's pattern is refused.
pub open spec fn product_errors_spec(p: ProductView, rules: ValidationRules) -> Option<Seq<ErrorView>> {
    match format_errors(p, rules.field_formats@) {
        None => None,
        Some(fe) => Some(required_errors(p, rules.required_fields@) + fe + range_errors(p, rules.field_ranges@) + custom_errors(p, rules.custom_validators@)),
    }
}

fn push_error(out: &mut Vec<ValidationError>, field: String, error_type: ValidationErrorType, message: String, record_id: String)
    ensures
        errors_view(final(out)@) == errors_view(old(out)@).push(ErrorView { field: field@, error_type, message: message@, record_id: record_id@ }),
{
    out.push(ValidationError { field, error_type, message, record_id });
    proof {
        assert(errors_view(final(out)@) =~= errors_view(old(out)@).push(ErrorView { field: field@, error_type, message: message@, record_id: record_id@ }));
    }
}

fn bound_message(v: &str, word: &str, m: i64) -> (s: String)
    ensures
        s@ == "Value "@ + v@ + word@ + cents_text(m as int),
{
    let mut s = copy_str("Value ");
    s.append(v);
    s.append(word);
    s.append(format_cents(m).as_str());
    s
}

/// The failures of `p`, in the order the rules list them.
pub fn product_errors(p: &ShopifyProduct, rules: &ValidationRules) -> (r: Result<Vec<ValidationError>, WranglingError>)
    ensures
        match r {
            Ok(v) => product_errors_spec(p@, *rules) == Some(errors_view(v@)),
            Err(_) => product_errors_spec(p@, *rules) is None,
        },
{
    let mut out: Vec<ValidationError> = Vec::new();
    let mut i: usize = 0;
    while i < rules.required_fields.len()
        invariant
            i <= rules.required_fields.len(),
            errors_view(out@) == required_errors(p@, rules.required_fields@.take(i as int)),
        decreases rules.required_fields.len() - i,
    {
        proof {
            assert(rules.required_fields@.take(i + 1).drop_last() == rules.required_fields@.take(i as int));
        }
        let f = &rules.required_fields[i];
        if !field_present(p, f.as_str()) {
            let mut msg = concat_str("Required field '", f.as_str());
            msg.append("' is missing");
            push_error(&mut out, f.clone(), ValidationErrorType::MissingRequired, msg, p.id.clone());
        }
        i += 1;
    }
    proof {
        assert(rules.required_fields@.take(rules.required_fields@.len() as int) == rules.required_fields@);
    }
    let ghost req = errors_view(out@);
    let mut fmt_errs: Vec<ValidationError> = Vec::new();
    let mut i: usize = 0;
    while i < rules.field_formats.len()
        invariant
            i <= rules.field_formats.len(),
            format_errors(p@, rules.field_formats@.take(i as int)) == Some(errors_view(fmt_errs@)),
        decreases rules.field_formats.len() - i,
    {
        proof {
            assert(rules.field_formats@.take(i + 1).drop_last() == rules.field_formats@.take(i as int));
        }
        let (f, fmt) = &rules.field_formats[i];
        match field_value(p, f.as_str()) {
            None => {},
            Some(v) => {
                match is_match(fmt.pattern.as_str(), v.as_str()) {
                    Err(_) => {
                        proof {
                            lemma_format_errors_stuck(p@, rules.field_formats@, i as int + 1);
                        }
                        return Err(WranglingError::PatternRejected);
                    },
                    Ok(true) => {},
                    Ok(false) => {
                        push_error(&mut fmt_errs, f.clone(), ValidationErrorType::InvalidFormat, fmt.pattern.clone(), p.id.clone());
                    },
                }
            },
        }
        i += 1;
    }
    proof {
        assert(rules.field_formats@.take(rules.field_formats@.len() as int) == rules.field_formats@);
    }
    let ghost fe = errors_view(fmt_errs@);
    let mut rng_errs: Vec<ValidationError> = Vec::new();
    let mut i: usize = 0;
    while i < rules.field_ranges.len()
        invariant
            i <= rules.field_ranges.len(),
            errors_view(rng_errs@) == range_errors(p@, rules.field_ranges@.take(i as int)),
        decreases rules.field_ranges.len() - i,
    {
        proof {
            assert(rules.field_ranges@.take(i + 1).drop_last() == rules.field_ranges@.take(i as int));
        }
        let (f, range) = &rules.field_ranges[i];
        match field_value(p, f.as_str()) {
            None => {},
            Some(v) => {
                let (low, high) = range_verdict(v.as_str(), range.min_value, range.max_value);
                let ghost before = errors_view(rng_errs@);
                match range.min_value {
                    Some(m) => if low {
                        push_error(&mut rng_errs, f.clone(), ValidationErrorType::OutOfRange, bound_message(v.as_str(), " below minimum ", m), p.id.clone());
                    },
                    None => {},
                }
                match range.max_value {
                    Some(m) => if high {
                        push_error(&mut rng_errs, f.clone(), ValidationErrorType::OutOfRange, bound_message(v.as_str(), " above maximum ", m), p.id.clone());
                    },
                    None => {},
                }
                proof {
                    if let Some(x) = float_text(v@) {
                        assert(errors_view(rng_errs@) =~= before + crate::validation::bound_errors(p@, f@, v@, x, *range));
                    } else {
                        assert(errors_view(rng_errs@) =~= before);
                    }
                }
            },
        }
        i += 1;
    }
    proof {
        assert(rules.field_ranges@.take(rules.field_ranges@.len() as int) == rules.field_ranges@);
    }
    let mut cus_errs: Vec<ValidationError> = Vec::new();
    let mut i: usize = 0;
    while i < rules.custom_validators.len()
        invariant
            i <= rules.custom_validators.len(),
            errors_view(cus_errs@) == custom_errors(p@, rules.custom_validators@.take(i as int)),
        decreases rules.custom_validators.len() - i,
    {
        proof {
            assert(rules.custom_validators@.take(i + 1).drop_last() == rules.custom_validators@.take(i as int));
        }
        let c = &rules.custom_validators[i];
        match field_value(p, c.field.as_str()) {
            None => {},
            Some(v) => {
                if !c.validator.check(v.as_str()) {
                    push_error(&mut cus_errs, c.field.clone(), ValidationErrorType::InvalidFormat, c.error_message.clone(), p.id.clone());
                }
            },
        }
        i += 1;
    }
    proof {
        assert(rules.custom_validators@.take(rules.custom_validators@.len() as int) == rules.custom_validators@);
    }
    let ghost a = errors_view(out@);
    let ghost b = errors_view(fmt_errs@);
    let ghost c = errors_view(rng_errs@);
    let ghost d = errors_view(cus_errs@);
    out.append(&mut fmt_errs);
    out.append(&mut rng_errs);
    out.append(&mut cus_errs);
    proof {
        assert(errors_view(out@) =~= a + b + c + d);
    }
    Ok(out)
}

/// Once a prefix of the formats gives `None`, so does every longer one.
proof fn lemma_format_errors_stuck(p: ProductView, formats: Seq<(String, FieldFormat)>, k: int)
    requires
        0 <= k <= formats.len(),
        format_errors(p, formats.take(k)) is None,
    ensures
        format_errors(p, formats) is None,
    decreases formats.len() - k,
{
    if k < formats.len() {
        assert(formats.take(k + 1).drop_last() == formats.take(k));
        lemma_format_errors_stuck(p, formats, k + 1);
    } else {
        assert(formats.take(k) == formats);
    }
}

/// The products that pass every check, in order, and the failures of the
/// others, product after product; `None` when a pattern is refused.
pub open spec fn validate_spec(ps: Seq<ProductView>, rules: ValidationRules) -> Option<(Seq<ProductView>, Seq<ErrorView>)>
    decreases ps.len(),
{
    if ps.len() == 0 {
        Some((seq![], seq![]))
    } else {
        match validate_spec(ps.drop_last(), rules) {
            None => None,
            Some((valid, errs)) => match product_errors_spec(ps.last(), rules) {
                None => None,
                Some(e) => if e.len() == 0 {
                    Some((valid.push(ps.last()), errs))
                } else {
                    Some((valid, errs + e))
                },
            },
        }
    }
}

proof fn lemma_validate_stuck(ps: Seq<ProductView>, rules: ValidationRules, k: int)
    requires
        0 <= k <= ps.len(),
        validate_spec(ps.take(k), rules) is None,
    ensures
        validate_spec(ps, rules) is None,
    decreases ps.len() - k,
{
    if k < ps.len() {
        assert(ps.take(k + 1).drop_last() == ps.take(k));
        lemma_validate_stuck(ps, rules, k + 1);
    } else {
        assert(ps.take(k) == ps);
    }
}

/// The validation stage of the pipeline: copies of the valid
/// products, and the failures of the invalid ones.
pub fn validate_products(products: &[ShopifyProduct], rules: &ValidationRules) -> (r: Result<(Vec<ShopifyProduct>, Vec<ValidationError>), WranglingError>)
    ensures
        match r {
            Ok((valid, errs)) => validate_spec(products_view(products@), *rules) == Some((products_view(valid@), errors_view(errs@))),
            Err(_) => validate_spec(products_view(products@), *rules) is None,
        },
{
    let ghost all = products_view(products@);
    let mut valid: Vec<ShopifyProduct> = Vec::new();
    let mut errs: Vec<ValidationError> = Vec::new();
    let mut i: usize = 0;
    while i < products.len()
        invariant
            i <= products.len(),
            all == products_view(products@),
            validate_spec(all.take(i as int), *rules) == Some((products_view(valid@), errors_view(errs@))),
        decreases products.len() - i,
    {
        proof {
            assert(all.take(i + 1).drop_last() == all.take(i as int));
            assert(all.take(i + 1).last() == products@[i as int]@);
        }
        let p = &products[i];
        match product_errors(p, rules) {
            Err(e) => {
                proof {
                    lemma_validate_stuck(all, *rules, i as int + 1);
                }
                return Err(e);
            },
            Ok(mut pe) => {
                if pe.len() == 0 {
                    let ghost before = products_view(valid@);
                    valid.push(p.clone());
                    proof {
                        assert(products_view(valid@) =~= before.push(p@));
                    }
                } else {
                    let ghost before = errors_view(errs@);
                    let ghost more = errors_view(pe@);
                    errs.append(&mut pe);
                    proof {
                        assert(errors_view(errs@) =~= before + more);
                    }
                }
            },
        }
        i += 1;
    }
    proof {
        assert(all.take(products@.len() as int) == all);
    }
    Ok((valid, errs))
}

/// Every product that passes validation has all its required fields, and
/// the valid products are among the inputs, in order.
pub proof fn lemma_valid_products_complete(ps: Seq<ProductView>, rules: ValidationRules)
    requires
        validate_spec(ps, rules) is Some,
    ensures
        ({
            let valid = validate_spec(ps, rules).unwrap().0;
            &&& valid.len() <= ps.len()
            &&& forall|k: int, j: int| 0 <= k < valid.len() && 0 <= j < rules.required_fields@.len()
                ==> field_present_spec(#[trigger] valid[k], #[trigger] rules.required_fields@[j]@)
            &&& forall|k: int| 0 <= k < valid.len() ==> ps.contains(#[trigger] valid[k])
        }),
    decreases ps.len(),
{
    if ps.len() > 0 {
        lemma_valid_products_complete(ps.drop_last(), rules);
        let (valid0, _) = validate_spec(ps.drop_last(), rules).unwrap();
        let p = ps.last();
        let e = product_errors_spec(p, rules).unwrap();
        let valid = validate_spec(ps, rules).unwrap().0;
        if e.len() == 0 {
            lemma_no_errors_all_present(p, rules);
            assert forall|k: int| 0 <= k < valid.len() implies ps.contains(#[trigger] valid[k]) by {
                if k < valid0.len() {
                    assert(ps.drop_last().contains(valid0[k]));
                    let j = choose|j: int| 0 <= j < ps.drop_last().len() && ps.drop_last()[j] == valid0[k];
                    assert(ps[j] == valid0[k]);
                } else {
                    assert(ps[ps.len() - 1] == p);
                }
            }
        } else {
            assert forall|k: int| 0 <= k < valid.len() implies ps.contains(#[trigger] valid[k]) by {
                assert(ps.drop_last().contains(valid0[k]));
                let j = choose|j: int| 0 <= j < ps.drop_last().len() && ps.drop_last()[j] == valid0[k];
                assert(ps[j] == valid0[k]);
            }
        }
    }
}

/// Validating the products that passed validation keeps every one of
/// them, in order, and reports no failure.
pub proof fn lemma_validate_idempotent(ps: Seq<ProductView>, rules: ValidationRules)
    requires
        validate_spec(ps, rules) is Some,
    ensures
        ({
            let valid = validate_spec(ps, rules).unwrap().0;
            validate_spec(valid, rules) == Some((valid, Seq::<ErrorView>::empty()))
        }),
    decreases ps.len(),
{
    if ps.len() > 0 {
        lemma_validate_idempotent(ps.drop_last(), rules);
        let valid0 = validate_spec(ps.drop_last(), rules).unwrap().0;
        let e = product_errors_spec(ps.last(), rules).unwrap();
        if e.len() == 0 {
            let valid = valid0.push(ps.last());
            assert(valid.drop_last() =~= valid0);
            assert(valid.last() == ps.last());
            assert(Seq::<ErrorView>::empty() + e =~= Seq::<ErrorView>::empty());
        }
    }
}

proof fn lemma_format_errors_some(p: ProductView, formats: Seq<(String, FieldFormat)>)
    requires
        forall|i: int, t: Seq<char>| 0 <= i < formats.len() ==> (#[trigger] regex_matches(formats[i].1.pattern@, t)) is Some,
    ensures
        format_errors(p, formats) is Some,
    decreases formats.len(),
{
    if formats.len() > 0 {
        let init = formats.drop_last();
        assert forall|i: int, t: Seq<char>| 0 <= i < init.len() implies (#[trigger] regex_matches(init[i].1.pattern@, t)) is Some by {
            assert(init[i] == formats[i]);
        }
        lemma_format_errors_some(p, init);
        let f = formats.last().0@;
        if let Some(v) = field_value_spec(p, f) {
            assert(regex_matches(formats[formats.len() - 1].1.pattern@, v) is Some);
        }
    }
}

/// Validation fails only on a pattern that the regex crate refuses: when
/// it accepts every format pattern of the rules, validation succeeds on
/// any products.
pub proof fn lemma_validate_succeeds(ps: Seq<ProductView>, rules: ValidationRules)
    requires
        forall|i: int, t: Seq<char>| 0 <= i < rules.field_formats@.len()
            ==> (#[trigger] regex_matches(rules.field_formats@[i].1.pattern@, t)) is Some,
    ensures
        validate_spec(ps, rules) is Some,
    decreases ps.len(),
{
    if ps.len() > 0 {
        lemma_validate_succeeds(ps.drop_last(), rules);
        lemma_format_errors_some(ps.last(), rules.field_formats@);
    }
}

proof fn lemma_push_contains(s: Seq<ErrorView>, x: ErrorView, y: ErrorView)
    ensures
        s.push(x).contains(y) <==> (s.contains(y) || x == y),
{
    if s.contains(y) {
        let j = choose|j: int| 0 <= j < s.len() && s[j] == y;
        assert(s.push(x)[j] == y);
    }
    if x == y {
        assert(s.push(x)[s.len() as int] == y);
    }
    if s.push(x).contains(y) && x != y {
        let j = choose|j: int| 0 <= j < s.push(x).len() && s.push(x)[j] == y;
        assert(s[j] == y);
    }
}

proof fn lemma_concat_contains(a: Seq<ErrorView>, b: Seq<ErrorView>, y: ErrorView)
    ensures
        (a + b).contains(y) <==> (a.contains(y) || b.contains(y)),
{
    if a.contains(y) {
        let j = choose|j: int| 0 <= j < a.len() && a[j] == y;
        assert((a + b)[j] == y);
    }
    if b.contains(y) {
        let j = choose|j: int| 0 <= j < b.len() && b[j] == y;
        assert((a + b)[a.len() + j] == y);
    }
    if (a + b).contains(y) {
        let j = choose|j: int| 0 <= j < (a + b).len() && (a + b)[j] == y;
        if j < a.len() {
            assert(a[j] == y);
        } else {
            assert(b[j - a.len()] == y);
        }
    }
}

/// The failure of a missing required field.
pub open spec fn is_missing_failure(p: ProductView, fields: Seq<String>, err: ErrorView) -> bool {
    exists|i: int|
        0 <= i < fields.len() && !field_present_spec(p, (#[trigger] fields[i])@) && err == (ErrorView {
            field: fields[i]@,
            error_type: ValidationErrorType::MissingRequired,
            message: "Required field '"@ + fields[i]@ + "' is missing"@,
            record_id: p.id,
        })
}

/// The failure of a field whose text its format's pattern does not match.
pub open spec fn is_format_failure(p: ProductView, formats: Seq<(String, FieldFormat)>, err: ErrorView) -> bool {
    exists|i: int|
        0 <= i < formats.len() && (field_value_spec(p, (#[trigger] formats[i]).0@) matches Some(v) && regex_matches(
            formats[i].1.pattern@,
            v,
        ) == Some(false)) && err == (ErrorView {
            field: formats[i].0@,
            error_type: ValidationErrorType::InvalidFormat,
            message: formats[i].1.pattern@,
            record_id: p.id,
        })
}

/// `err` is the failure of the field of `r` when its text writes a number
/// below the range's minimum or above its maximum.
pub open spec fn range_failure_at(p: ProductView, r: (String, FieldRange), err: ErrorView) -> bool {
    match field_value_spec(p, r.0@) {
        None => false,
        Some(v) => match float_text(v) {
            None => false,
            Some(x) => (match r.1.min_value {
                Some(m) => below_hundredths(x, m as int) && err == (ErrorView {
                    field: r.0@,
                    error_type: ValidationErrorType::OutOfRange,
                    message: "Value "@ + v + " below minimum "@ + cents_text(m as int),
                    record_id: p.id,
                }),
                None => false,
            }) || (match r.1.max_value {
                Some(m) => above_hundredths(x, m as int) && err == (ErrorView {
                    field: r.0@,
                    error_type: ValidationErrorType::OutOfRange,
                    message: "Value "@ + v + " above maximum "@ + cents_text(m as int),
                    record_id: p.id,
                }),
                None => false,
            }),
        },
    }
}

/// The failure of a field whose number lies outside its range.
pub open spec fn is_range_failure(p: ProductView, ranges: Seq<(String, FieldRange)>, err: ErrorView) -> bool {
    exists|i: int| 0 <= i < ranges.len() && range_failure_at(p, #[trigger] ranges[i], err)
}

/// The failure of a field whose text a custom check rejects.
pub open spec fn is_custom_failure(p: ProductView, validators: Seq<CustomValidator>, err: ErrorView) -> bool {
    exists|i: int|
        0 <= i < validators.len() && (field_value_spec(p, (#[trigger] validators[i]).field@) matches Some(v)
            && !validators[i].validator.accepts(v)) && err == (ErrorView {
            field: validators[i].field@,
            error_type: ValidationErrorType::InvalidFormat,
            message: validators[i].error_message@,
            record_id: p.id,
        })
}

proof fn lemma_required_contains(p: ProductView, fields: Seq<String>, err: ErrorView)
    ensures
        required_errors(p, fields).contains(err) <==> is_missing_failure(p, fields, err),
    decreases fields.len(),
{
    if fields.len() > 0 {
        let init = fields.drop_last();
        lemma_required_contains(p, init, err);
        let f = fields.last()@;
        let x = ErrorView { field: f, error_type: ValidationErrorType::MissingRequired, message: missing_message(f), record_id: p.id };
        lemma_push_contains(required_errors(p, init), x, err);
        if is_missing_failure(p, init, err) {
            let i = choose|i: int| 0 <= i < init.len() && !field_present_spec(p, (#[trigger] init[i])@) && err == (ErrorView {
                field: init[i]@,
                error_type: ValidationErrorType::MissingRequired,
                message: "Required field '"@ + init[i]@ + "' is missing"@,
                record_id: p.id,
            });
            assert(fields[i] == init[i]);
        }
        if is_missing_failure(p, fields, err) {
            let i = choose|i: int| 0 <= i < fields.len() && !field_present_spec(p, (#[trigger] fields[i])@) && err == (ErrorView {
                field: fields[i]@,
                error_type: ValidationErrorType::MissingRequired,
                message: "Required field '"@ + fields[i]@ + "' is missing"@,
                record_id: p.id,
            });
            if i < init.len() {
                assert(init[i] == fields[i]);
            }
        }
        if !field_present_spec(p, f) && err == x {
            assert(fields[fields.len() - 1] == fields.last());
        }
    }
}

proof fn lemma_format_contains(p: ProductView, formats: Seq<(String, FieldFormat)>, err: ErrorView)
    requires
        format_errors(p, formats) is Some,
    ensures
        format_errors(p, formats).unwrap().contains(err) <==> is_format_failure(p, formats, err),
    decreases formats.len(),
{
    if formats.len() > 0 {
        let init = formats.drop_last();
        lemma_format_contains(p, init, err);
        let prev = format_errors(p, init).unwrap();
        let last = formats.last();
        let f = last.0@;
        let x = ErrorView { field: f, error_type: ValidationErrorType::InvalidFormat, message: last.1.pattern@, record_id: p.id };
        lemma_push_contains(prev, x, err);
        assert(formats[formats.len() - 1] == last);
        assert forall|i: int| 0 <= i < init.len() implies #[trigger] init[i] == formats[i] by {}
        if is_format_failure(p, formats, err) {
            let i = choose|i: int|
                0 <= i < formats.len() && (field_value_spec(p, (#[trigger] formats[i]).0@) matches Some(v) && regex_matches(
                    formats[i].1.pattern@,
                    v,
                ) == Some(false)) && err == (ErrorView {
                    field: formats[i].0@,
                    error_type: ValidationErrorType::InvalidFormat,
                    message: formats[i].1.pattern@,
                    record_id: p.id,
                });
            if i < init.len() {
                assert(init[i] == formats[i]);
                assert(is_format_failure(p, init, err));
            }
        }
        if is_format_failure(p, init, err) {
            let i = choose|i: int|
                0 <= i < init.len() && (field_value_spec(p, (#[trigger] init[i]).0@) matches Some(v) && regex_matches(
                    init[i].1.pattern@,
                    v,
                ) == Some(false)) && err == (ErrorView {
                    field: init[i].0@,
                    error_type: ValidationErrorType::InvalidFormat,
                    message: init[i].1.pattern@,
                    record_id: p.id,
                });
            assert(init[i] == formats[i]);
        }
    }
}

proof fn lemma_bound_contains(p: ProductView, r: (String, FieldRange), v: Seq<char>, x: FloatText, err: ErrorView)
    requires
        field_value_spec(p, r.0@) == Some(v),
        float_text(v) == Some(x),
    ensures
        bound_errors(p, r.0@, v, x, r.1).contains(err) <==> range_failure_at(p, r, err),
{
    let b = bound_errors(p, r.0@, v, x, r.1);
    let low = match r.1.min_value {
        Some(m) => if below_hundredths(x, m as int) {
            seq![ErrorView { field: r.0@, error_type: ValidationErrorType::OutOfRange, message: below_message(v, m), record_id: p.id }]
        } else {
            seq![]
        },
        None => seq![],
    };
    let high = match r.1.max_value {
        Some(m) => if above_hundredths(x, m as int) {
            seq![ErrorView { field: r.0@, error_type: ValidationErrorType::OutOfRange, message: above_message(v, m), record_id: p.id }]
        } else {
            seq![]
        },
        None => seq![],
    };
    assert(b == low + high);
    lemma_concat_contains(low, high, err);
    if low.len() > 0 {
        assert(low.contains(err) <==> low[0] == err);
    }
    if high.len() > 0 {
        assert(high.contains(err) <==> high[0] == err);
    }
}

proof fn lemma_range_contains(p: ProductView, ranges: Seq<(String, FieldRange)>, err: ErrorView)
    ensures
        range_errors(p, ranges).contains(err) <==> is_range_failure(p, ranges, err),
    decreases ranges.len(),
{
    if ranges.len() > 0 {
        let init = ranges.drop_last();
        lemma_range_contains(p, init, err);
        let last = ranges.last();
        let prev = range_errors(p, init);
        assert(ranges[ranges.len() - 1] == last);
        assert forall|i: int| 0 <= i < init.len() implies #[trigger] init[i] == ranges[i] by {}
        match field_value_spec(p, last.0@) {
            None => {},
            Some(v) => match float_text(v) {
                None => {},
                Some(x) => {
                    lemma_concat_contains(prev, bound_errors(p, last.0@, v, x, last.1), err);
                    lemma_bound_contains(p, last, v, x, err);
                },
            },
        }
        if is_range_failure(p, ranges, err) {
            let i = choose|i: int| 0 <= i < ranges.len() && range_failure_at(p, #[trigger] ranges[i], err);
            if i < init.len() {
                assert(init[i] == ranges[i]);
            }
        }
        if is_range_failure(p, init, err) {
            let i = choose|i: int| 0 <= i < init.len() && range_failure_at(p, #[trigger] init[i], err);
            assert(init[i] == ranges[i]);
        }
    }
}

proof fn lemma_custom_contains(p: ProductView, vs: Seq<CustomValidator>, err: ErrorView)
    ensures
        custom_errors(p, vs).contains(err) <==> is_custom_failure(p, vs, err),
    decreases vs.len(),
{
    if vs.len() > 0 {
        let init = vs.drop_last();
        lemma_custom_contains(p, init, err);
        let c = vs.last();
        let x = ErrorView { field: c.field@, error_type: ValidationErrorType::InvalidFormat, message: c.error_message@, record_id: p.id };
        lemma_push_contains(custom_errors(p, init), x, err);
        assert(vs[vs.len() - 1] == c);
        assert forall|i: int| 0 <= i < init.len() implies #[trigger] init[i] == vs[i] by {}
        if is_custom_failure(p, vs, err) {
            let i = choose|i: int|
                0 <= i < vs.len() && (field_value_spec(p, (#[trigger] vs[i]).field@) matches Some(v)
                    && !vs[i].validator.accepts(v)) && err == (ErrorView {
                    field: vs[i].field@,
                    error_type: ValidationErrorType::InvalidFormat,
                    message: vs[i].error_message@,
                    record_id: p.id,
                });
            if i < init.len() {
                assert(init[i] == vs[i]);
                assert(is_custom_failure(p, init, err));
            }
        }
        if is_custom_failure(p, init, err) {
            let i = choose|i: int|
                0 <= i < init.len() && (field_value_spec(p, (#[trigger] init[i]).field@) matches Some(v)
                    && !init[i].validator.accepts(v)) && err == (ErrorView {
                    field: init[i].field@,
                    error_type: ValidationErrorType::InvalidFormat,
                    message: init[i].error_message@,
                    record_id: p.id,
                });
            assert(init[i] == vs[i]);
        }
    }
}

/// The failures of a product are exactly these: one for each required
/// field that is not present (`Required field '<f>' is missing`), one for
/// each field whose text its format's pattern does not match (the pattern
/// as message), one for each field whose number lies below its range's
/// minimum or above its maximum, and one for each custom check that
/// rejects its field's text (the check's message). So a product is valid
/// exactly when none of these holds.
pub proof fn lemma_product_failures(p: ProductView, rules: ValidationRules)
    requires
        product_errors_spec(p, rules) is Some,
    ensures
        forall|err: ErrorView| #[trigger] product_errors_spec(p, rules).unwrap().contains(err) <==> (is_missing_failure(
            p,
            rules.required_fields@,
            err,
        ) || is_format_failure(p, rules.field_formats@, err) || is_range_failure(p, rules.field_ranges@, err)
            || is_custom_failure(p, rules.custom_validators@, err)),
{
    let a = required_errors(p, rules.required_fields@);
    let b = format_errors(p, rules.field_formats@).unwrap();
    let c = range_errors(p, rules.field_ranges@);
    let d = custom_errors(p, rules.custom_validators@);
    assert forall|err: ErrorView| #[trigger] product_errors_spec(p, rules).unwrap().contains(err) <==> (is_missing_failure(
        p,
        rules.required_fields@,
        err,
    ) || is_format_failure(p, rules.field_formats@, err) || is_range_failure(p, rules.field_ranges@, err)
        || is_custom_failure(p, rules.custom_validators@, err)) by {
        lemma_required_contains(p, rules.required_fields@, err);
        lemma_format_contains(p, rules.field_formats@, err);
        lemma_range_contains(p, rules.field_ranges@, err);
        lemma_custom_contains(p, rules.custom_validators@, err);
        lemma_concat_contains(a, b, err);
        lemma_concat_contains(a + b, c, err);
        lemma_concat_contains(a + b + c, d, err);
    }
}

proof fn lemma_custom_errors_has(p: ProductView, vs: Seq<CustomValidator>, i: int, v: Seq<char>)
    requires
        0 <= i < vs.len(),
        field_value_spec(p, vs[i].field@) == Some(v),
        !vs[i].validator.accepts(v),
    ensures
        custom_errors(p, vs).contains(
            ErrorView { field: vs[i].field@, error_type: ValidationErrorType::InvalidFormat, message: vs[i].error_message@, record_id: p.id },
        ),
    decreases vs.len(),
{
    let err = ErrorView { field: vs[i].field@, error_type: ValidationErrorType::InvalidFormat, message: vs[i].error_message@, record_id: p.id };
    let prev = custom_errors(p, vs.drop_last());
    if i == vs.len() - 1 {
        assert(vs.last() == vs[i]);
        assert(custom_errors(p, vs) == prev.push(err));
        assert(custom_errors(p, vs)[prev.len() as int] == err);
    } else {
        assert(vs.drop_last()[i] == vs[i]);
        lemma_custom_errors_has(p, vs.drop_last(), i, v);
        let j = choose|j: int| 0 <= j < prev.len() && prev[j] == err;
        let c = vs.last();
        match field_value_spec(p, c.field@) {
            None => {},
            Some(w) => {
                if !c.validator.accepts(w) {
                    assert(custom_errors(p, vs)[j] == err);
                }
            },
        }
    }
}

/// Every custom check that rejects the text of its field gives the product
/// a failure, whatever that text is (the empty text included): the failure
/// names the field, is an `InvalidFormat`, carries the check's message and
/// the product's id.
pub proof fn lemma_custom_check_failure(p: ProductView, rules: ValidationRules, i: int, v: Seq<char>)
    requires
        0 <= i < rules.custom_validators@.len(),
        field_value_spec(p, rules.custom_validators@[i].field@) == Some(v),
        !rules.custom_validators@[i].validator.accepts(v),
        product_errors_spec(p, rules) is Some,
    ensures
        product_errors_spec(p, rules).unwrap().contains(
            ErrorView {
                field: rules.custom_validators@[i].field@,
                error_type: ValidationErrorType::InvalidFormat,
                message: rules.custom_validators@[i].error_message@,
                record_id: p.id,
            },
        ),
{
    let c = rules.custom_validators@[i];
    let err = ErrorView { field: c.field@, error_type: ValidationErrorType::InvalidFormat, message: c.error_message@, record_id: p.id };
    lemma_custom_errors_has(p, rules.custom_validators@, i, v);
    let fe = format_errors(p, rules.field_formats@).unwrap();
    let head = required_errors(p, rules.required_fields@) + fe + range_errors(p, rules.field_ranges@);
    let ce = custom_errors(p, rules.custom_validators@);
    let j = choose|j: int| 0 <= j < ce.len() && ce[j] == err;
    assert(product_errors_spec(p, rules).unwrap() == head + ce);
    assert((head + ce)[head.len() + j] == err);
}

/// A product that passes validation passes every custom check on its
/// field's text.
pub proof fn lemma_valid_pass_custom_checks(ps: Seq<ProductView>, rules: ValidationRules)
    requires
        validate_spec(ps, rules) is Some,
    ensures
        ({
            let valid = validate_spec(ps, rules).unwrap().0;
            forall|k: int, i: int|
                0 <= k < valid.len() && 0 <= i < rules.custom_validators@.len() ==> (field_value_spec(
                    #[trigger] valid[k],
                    #[trigger] rules.custom_validators@[i].field@,
                ) matches Some(v) ==> rules.custom_validators@[i].validator.accepts(v))
        }),
    decreases ps.len(),
{
    if ps.len() > 0 {
        lemma_valid_pass_custom_checks(ps.drop_last(), rules);
        let valid0 = validate_spec(ps.drop_last(), rules).unwrap().0;
        let p = ps.last();
        let e = product_errors_spec(p, rules).unwrap();
        let valid = validate_spec(ps, rules).unwrap().0;
        assert forall|k: int, i: int|
            0 <= k < valid.len() && 0 <= i < rules.custom_validators@.len() implies (field_value_spec(
                #[trigger] valid[k],
                #[trigger] rules.custom_validators@[i].field@,
            ) matches Some(v) ==> rules.custom_validators@[i].validator.accepts(v)) by {
            let v = field_value_spec(valid[k], rules.custom_validators@[i].field@)->0;
            if k < valid0.len() {
                assert(valid[k] == valid0[k]);
            } else {
                assert(e.len() == 0);
                assert(valid[k] == p);
                if field_value_spec(p, rules.custom_validators@[i].field@) is Some && !rules.custom_validators@[i].validator.accepts(v) {
                    lemma_custom_check_failure(p, rules, i, v);
                }
            }
        }
    }
}

proof fn lemma_push_contains_product(s: Seq<ProductView>, x: ProductView, y: ProductView)
    ensures
        s.push(x).contains(y) <==> (s.contains(y) || x == y),
{
    if s.contains(y) {
        let j = choose|j: int| 0 <= j < s.len() && s[j] == y;
        assert(s.push(x)[j] == y);
    }
    if x == y {
        assert(s.push(x)[s.len() as int] == y);
    }
    if s.push(x).contains(y) && x != y {
        let j = choose|j: int| 0 <= j < s.push(x).len() && s.push(x)[j] == y;
        assert(s[j] == y);
    }
}

/// Validation keeps exactly the products without failures and reports
/// only their failures: every kept product is an input with no failure,
/// every input with no failure is kept, and every reported failure is a
/// failure of some input.
pub proof fn lemma_validate_partition(ps: Seq<ProductView>, rules: ValidationRules)
    requires
        validate_spec(ps, rules) is Some,
    ensures
        ({
            let (valid, errs) = validate_spec(ps, rules).unwrap();
            &&& forall|q: ProductView| #[trigger] valid.contains(q) ==> ps.contains(q) && (product_errors_spec(q, rules)
                matches Some(e) && e.len() == 0)
            &&& forall|k: int| 0 <= k < ps.len() && (product_errors_spec(#[trigger] ps[k], rules) matches Some(e) && e.len()
                == 0) ==> valid.contains(ps[k])
            &&& forall|err: ErrorView| #[trigger] errs.contains(err) ==> exists|k: int| 0 <= k < ps.len() && (
            product_errors_spec(#[trigger] ps[k], rules) matches Some(e) && e.contains(err))
        }),
    decreases ps.len(),
{
    if ps.len() > 0 {
        let init = ps.drop_last();
        lemma_validate_partition(init, rules);
        let (valid0, errs0) = validate_spec(init, rules).unwrap();
        let p = ps.last();
        let e = product_errors_spec(p, rules).unwrap();
        let (valid, errs) = validate_spec(ps, rules).unwrap();
        assert(ps[ps.len() - 1] == p);
        assert forall|k: int| 0 <= k < init.len() implies #[trigger] init[k] == ps[k] by {}
        assert forall|q: ProductView| #[trigger] valid.contains(q) implies ps.contains(q) && (product_errors_spec(q, rules)
            matches Some(e2) && e2.len() == 0) by {
            if e.len() == 0 {
                lemma_push_contains_product(valid0, p, q);
            }
            if valid0.contains(q) {
                let j = choose|j: int| 0 <= j < init.len() && init[j] == q;
                assert(ps[j] == q);
            } else {
                assert(ps[ps.len() - 1] == q);
            }
        }
        assert forall|k: int| 0 <= k < ps.len() && (product_errors_spec(#[trigger] ps[k], rules) matches Some(e2) && e2.len()
            == 0) implies valid.contains(ps[k]) by {
            if e.len() == 0 {
                lemma_push_contains_product(valid0, p, ps[k]);
            }
            if k < init.len() {
                assert(init[k] == ps[k]);
            }
        }
        assert forall|err: ErrorView| #[trigger] errs.contains(err) implies exists|k: int| 0 <= k < ps.len() && (
        product_errors_spec(#[trigger] ps[k], rules) matches Some(e2) && e2.contains(err)) by {
            if e.len() > 0 {
                lemma_concat_contains(errs0, e, err);
            }
            if errs0.contains(err) {
                let k = choose|k: int| 0 <= k < init.len() && (product_errors_spec(#[trigger] init[k], rules) matches Some(
                    e2,
                ) && e2.contains(err));
                assert(ps[k] == init[k]);
            } else {
                assert(ps[ps.len() - 1] == p);
            }
        }
    }
}

proof fn lemma_required_errors_empty(p: ProductView, fields: Seq<String>)
    requires
        required_errors(p, fields).len() == 0,
    ensures
        forall|j: int| 0 <= j < fields.len() ==> field_present_spec(p, #[trigger] fields[j]@),
    decreases fields.len(),
{
    if fields.len() > 0 {
        let prev = required_errors(p, fields.drop_last());
        if !field_present_spec(p, fields.last()@) {
            assert(required_errors(p, fields).len() == prev.len() + 1);
        }
        lemma_required_errors_empty(p, fields.drop_last());
        assert forall|j: int| 0 <= j < fields.len() implies field_present_spec(p, #[trigger] fields[j]@) by {
            if j < fields.len() - 1 {
                assert(fields.drop_last()[j] == fields[j]);
            }
        }
    }
}

proof fn lemma_no_errors_all_present(p: ProductView, rules: ValidationRules)
    requires
        product_errors_spec(p, rules) matches Some(e) && e.len() == 0,
    ensures
        forall|j: int| 0 <= j < rules.required_fields@.len() ==> field_present_spec(p, #[trigger] rules.required_fields@[j]@),
{
    lemma_required_errors_empty(p, rules.required_fields@);
}

} // verus!
