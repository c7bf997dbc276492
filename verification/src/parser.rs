//! The descriptor parser: a single left-to-right scan over `--flag value`
//! pairs, building a [`DiscoveryRecord`] or stopping at the first classified
//! error.

use crate::ipv4::{ipv4_octets, is_ipv4_literal, parse_ipv4};
use crate::record::{AddressFamily, DiscoveryRecord, RecordModel, TransportType};
use crate::text::{is_u32_literal, parse_u32, u32_literal_value};
use vstd::prelude::*;

verus! {

/// Exactly why a parse failed. One error is produced per failed parse: the
/// first problem encountered, left to right.
#[derive(Clone, PartialEq, Eq, Debug)]
pub enum ParseError {
    /// A token in flag position matched none of the recognized flags.
    UnrecognizedFlag(String),
    /// A recognized flag was the last token, with no following value.
    MissingValue(String),
    /// The value for `--traddr` is not a valid dotted-quad IPv4 literal.
    InvalidAddress(String),
    /// The value for `--trsvcid` is not a valid unsigned 32-bit integer.
    InvalidInteger(String),
    /// The value for `--trtype` or `--adrfam` is outside its closed text
    /// set.
    UnrecognizedEnumValue(String),
}

/// Mathematical model of a [`ParseError`], carrying the offending text as a
/// character sequence.
pub ghost enum ErrorModel {
    UnrecognizedFlag(Seq<char>),
    MissingValue(Seq<char>),
    InvalidAddress(Seq<char>),
    InvalidInteger(Seq<char>),
    UnrecognizedEnumValue(Seq<char>),
}

impl View for ParseError {
    type V = ErrorModel;

    open spec fn view(&self) -> ErrorModel {
        match self {
            ParseError::UnrecognizedFlag(t) => ErrorModel::UnrecognizedFlag(t@),
            ParseError::MissingValue(t) => ErrorModel::MissingValue(t@),
            ParseError::InvalidAddress(t) => ErrorModel::InvalidAddress(t@),
            ParseError::InvalidInteger(t) => ErrorModel::InvalidInteger(t@),
            ParseError::UnrecognizedEnumValue(t) => ErrorModel::UnrecognizedEnumValue(t@),
        }
    }
}

/// `t` is one of the five recognized flags.
pub open spec fn is_recognized_flag(t: Seq<char>) -> bool {
    ||| t == "--nqn"@
    ||| t == "--traddr"@
    ||| t == "--trsvcid"@
    ||| t == "--trtype"@
    ||| t == "--adrfam"@
}

/// What one recognized flag with its value token does to the record: the
/// flag's conversion rule applied, the converted value overriding the
/// matching field, or the rule's classified error.
pub open spec fn spec_apply_flag(rec: RecordModel, flag: Seq<char>, val: Seq<char>) -> Result<
    RecordModel,
    ErrorModel,
> {
    if flag == "--nqn"@ {
        Ok(RecordModel { nqn: val, ..rec })
    } else if flag == "--traddr"@ {
        if is_ipv4_literal(val) {
            Ok(RecordModel { traddr: ipv4_octets(val), ..rec })
        } else {
            Err(ErrorModel::InvalidAddress(val))
        }
    } else if flag == "--trsvcid"@ {
        if is_u32_literal(val) {
            Ok(RecordModel { trsvcid: u32_literal_value(val) as u32, ..rec })
        } else {
            Err(ErrorModel::InvalidInteger(val))
        }
    } else if flag == "--trtype"@ {
        match TransportType::spec_of_text(val) {
            Some(t) => Ok(RecordModel { trtype: t, ..rec }),
            None => Err(ErrorModel::UnrecognizedEnumValue(val)),
        }
    } else if flag == "--adrfam"@ {
        match AddressFamily::spec_of_text(val) {
            Some(f) => Ok(RecordModel { adrfam: f, ..rec }),
            None => Err(ErrorModel::UnrecognizedEnumValue(val)),
        }
    } else {
        Err(ErrorModel::UnrecognizedFlag(flag))
    }
}

/// The scan from token `i` on: each recognized flag consumes the next token
/// as its value and overrides a field; a missing value, an unrecognized
/// token or a failed conversion stops the scan with that error.
pub open spec fn spec_parse_from(rec: RecordModel, toks: Seq<Seq<char>>, i: int) -> Result<
    RecordModel,
    ErrorModel,
>
    decreases toks.len() - i,
{
    if i >= toks.len() {
        Ok(rec)
    } else if is_recognized_flag(toks[i]) {
        if i + 1 >= toks.len() {
            Err(ErrorModel::MissingValue(toks[i]))
        } else {
            match spec_apply_flag(rec, toks[i], toks[i + 1]) {
                Ok(next) => spec_parse_from(next, toks, i + 2),
                Err(e) => Err(e),
            }
        }
    } else {
        Err(ErrorModel::UnrecognizedFlag(toks[i]))
    }
}

/// The whole parse: token 0 is the program name and is skipped, the rest is
/// scanned left to right.
pub open spec fn spec_parse(rec: RecordModel, toks: Seq<Seq<char>>) -> Result<
    RecordModel,
    ErrorModel,
> {
    spec_parse_from(rec, toks, 1)
}

/// Parses the token sequence into a completed record, starting from
/// `initial` and overriding one field per recognized `--flag value` pair, in
/// command-line order; stops at the first classified error. Token 0 (the
/// program name) carries no meaning and is skipped.
pub fn parse(initial: DiscoveryRecord, tokens: &Vec<String>) -> (r: Result<
    DiscoveryRecord,
    ParseError,
>)
    ensures
        ({
            let outcome = spec_parse(initial@, tokens.deep_view());
            match r {
                Ok(rec) => outcome == Ok::<RecordModel, ErrorModel>(rec@),
                Err(e) => outcome == Err::<RecordModel, ErrorModel>(e@),
            }
        }),
{
    let ghost toks = tokens.deep_view();
    let mut rec = initial;
    let n = tokens.len();
    let mut i: usize = 1;
    while i < n
        invariant
            1 <= i,
            n == tokens@.len(),
            toks == tokens.deep_view(),
            toks.len() == n,
            spec_parse(initial@, toks) == spec_parse_from(rec@, toks, i as int),
        decreases n - i,
    {
        let flag = &tokens[i];
        if *flag == "--nqn".to_owned() {
            if i + 1 >= n {
                return Err(ParseError::MissingValue(flag.clone()));
            }
            rec.nqn = tokens[i + 1].clone();
            i = i + 2;
        } else if *flag == "--traddr".to_owned() {
            if i + 1 >= n {
                return Err(ParseError::MissingValue(flag.clone()));
            }
            match parse_ipv4(tokens[i + 1].as_str()) {
                Some(addr) => {
                    rec.traddr = addr;
                    i = i + 2;
                },
                None => {
                    return Err(ParseError::InvalidAddress(tokens[i + 1].clone()));
                },
            }
        } else if *flag == "--trsvcid".to_owned() {
            if i + 1 >= n {
                return Err(ParseError::MissingValue(flag.clone()));
            }
            match parse_u32(tokens[i + 1].as_str()) {
                Some(v) => {
                    rec.trsvcid = v;
                    i = i + 2;
                },
                None => {
                    return Err(ParseError::InvalidInteger(tokens[i + 1].clone()));
                },
            }
        } else if *flag == "--trtype".to_owned() {
            if i + 1 >= n {
                return Err(ParseError::MissingValue(flag.clone()));
            }
            match TransportType::from_text(tokens[i + 1].as_str()) {
                Some(t) => {
                    rec.trtype = t;
                    i = i + 2;
                },
                None => {
                    return Err(ParseError::UnrecognizedEnumValue(tokens[i + 1].clone()));
                },
            }
        } else if *flag == "--adrfam".to_owned() {
            if i + 1 >= n {
                return Err(ParseError::MissingValue(flag.clone()));
            }
            match AddressFamily::from_text(tokens[i + 1].as_str()) {
                Some(f) => {
                    rec.adrfam = f;
                    i = i + 2;
                },
                None => {
                    return Err(ParseError::UnrecognizedEnumValue(tokens[i + 1].clone()));
                },
            }
        } else {
            return Err(ParseError::UnrecognizedFlag(flag.clone()));
        }
    }
    Ok(rec)
}

/// The five recognized flag texts are pairwise distinct.
pub proof fn lemma_flags_distinct()
    ensures
        "--nqn"@ != "--traddr"@,
        "--nqn"@ != "--trsvcid"@,
        "--nqn"@ != "--trtype"@,
        "--nqn"@ != "--adrfam"@,
        "--traddr"@ != "--trsvcid"@,
        "--traddr"@ != "--trtype"@,
        "--traddr"@ != "--adrfam"@,
        "--trsvcid"@ != "--trtype"@,
        "--trsvcid"@ != "--adrfam"@,
        "--trtype"@ != "--adrfam"@,
{
    reveal_strlit("--nqn");
    reveal_strlit("--traddr");
    reveal_strlit("--trsvcid");
    reveal_strlit("--trtype");
    reveal_strlit("--adrfam");
    assert("--nqn"@.len() == 5);
    assert("--traddr"@.len() == 8);
    assert("--trsvcid"@.len() == 9);
    assert("--trtype"@.len() == 8);
    assert("--adrfam"@.len() == 8);
    assert("--traddr"@[4] == 'a');
    assert("--trtype"@[4] == 't');
    assert("--traddr"@[2] == 't');
    assert("--trtype"@[2] == 't');
    assert("--adrfam"@[2] == 'a');
}

/// Law: a token sequence holding no recognized flag leaves the initial
/// record untouched — unless a token other than position 0 is present, which
/// is then reported as an unrecognized flag.
pub proof fn lemma_parse_no_recognized_flags(rec: RecordModel, toks: Seq<Seq<char>>)
    requires
        forall|x: int| 1 <= x < toks.len() ==> !is_recognized_flag(#[trigger] toks[x]),
    ensures
        toks.len() <= 1 ==> spec_parse(rec, toks) == Ok::<RecordModel, ErrorModel>(rec),
        toks.len() > 1 ==> spec_parse(rec, toks) == Err::<RecordModel, ErrorModel>(
            ErrorModel::UnrecognizedFlag(toks[1]),
        ),
{
    if toks.len() > 1 {
        assert(!is_recognized_flag(toks[1]));
    }
}

/// Law: a recognized flag standing last, with no following value, yields
/// `MissingValue` naming that flag.
pub proof fn lemma_trailing_flag_missing_value(rec: RecordModel, prog: Seq<char>, flag: Seq<char>)
    requires
        is_recognized_flag(flag),
    ensures
        spec_parse(rec, seq![prog, flag]) == Err::<RecordModel, ErrorModel>(
            ErrorModel::MissingValue(flag),
        ),
{
    let toks = seq![prog, flag];
    assert(toks.len() == 2 && toks[1] == flag);
}

/// Law: `--traddr` with a valid dotted-quad literal yields a record whose
/// address is exactly that literal's octets; with anything else it yields
/// `InvalidAddress`.
pub proof fn lemma_traddr_flag(rec: RecordModel, prog: Seq<char>, lit: Seq<char>)
    ensures
        is_ipv4_literal(lit) ==> spec_parse(rec, seq![prog, "--traddr"@, lit]) == Ok::<
            RecordModel,
            ErrorModel,
        >((RecordModel { traddr: ipv4_octets(lit), ..rec })),
        !is_ipv4_literal(lit) ==> spec_parse(rec, seq![prog, "--traddr"@, lit]) == Err::<
            RecordModel,
            ErrorModel,
        >(ErrorModel::InvalidAddress(lit)),
{
    lemma_flags_distinct();
    let toks = seq![prog, "--traddr"@, lit];
    assert(toks.len() == 3 && toks[1] == "--traddr"@ && toks[2] == lit);
    assert(toks[1] != "--nqn"@);
    if is_ipv4_literal(lit) {
        let next = RecordModel { traddr: ipv4_octets(lit), ..rec };
        assert(spec_parse_from(next, toks, 3) == Ok::<RecordModel, ErrorModel>(next));
    }
}

/// Law: `--trsvcid` with a valid unsigned 32-bit literal yields a record
/// whose service id is exactly that literal's value; with anything else it
/// yields `InvalidInteger`.
pub proof fn lemma_trsvcid_flag(rec: RecordModel, prog: Seq<char>, lit: Seq<char>)
    ensures
        is_u32_literal(lit) ==> spec_parse(rec, seq![prog, "--trsvcid"@, lit]) == Ok::<
            RecordModel,
            ErrorModel,
        >((RecordModel { trsvcid: u32_literal_value(lit) as u32, ..rec })),
        !is_u32_literal(lit) ==> spec_parse(rec, seq![prog, "--trsvcid"@, lit]) == Err::<
            RecordModel,
            ErrorModel,
        >(ErrorModel::InvalidInteger(lit)),
{
    lemma_flags_distinct();
    let toks = seq![prog, "--trsvcid"@, lit];
    assert(toks.len() == 3 && toks[1] == "--trsvcid"@ && toks[2] == lit);
    assert(toks[1] != "--nqn"@ && toks[1] != "--traddr"@);
    if is_u32_literal(lit) {
        let next = RecordModel { trsvcid: u32_literal_value(lit) as u32, ..rec };
        assert(spec_parse_from(next, toks, 3) == Ok::<RecordModel, ErrorModel>(next));
    }
}

/// Law: `--trtype` with a text from the closed transport set yields a record
/// with that transport; any other text yields `UnrecognizedEnumValue` naming
/// it.
pub proof fn lemma_trtype_flag(rec: RecordModel, prog: Seq<char>, text: Seq<char>)
    ensures
        TransportType::spec_of_text(text) is Some ==> spec_parse(
            rec,
            seq![prog, "--trtype"@, text],
        ) == Ok::<RecordModel, ErrorModel>(
            (RecordModel { trtype: TransportType::spec_of_text(text).unwrap(), ..rec }),
        ),
        TransportType::spec_of_text(text) is None ==> spec_parse(
            rec,
            seq![prog, "--trtype"@, text],
        ) == Err::<RecordModel, ErrorModel>(ErrorModel::UnrecognizedEnumValue(text)),
{
    lemma_flags_distinct();
    let toks = seq![prog, "--trtype"@, text];
    assert(toks.len() == 3 && toks[1] == "--trtype"@ && toks[2] == text);
    assert(toks[1] != "--nqn"@ && toks[1] != "--traddr"@ && toks[1] != "--trsvcid"@);
    if TransportType::spec_of_text(text) is Some {
        let next = RecordModel { trtype: TransportType::spec_of_text(text).unwrap(), ..rec };
        assert(spec_parse_from(next, toks, 3) == Ok::<RecordModel, ErrorModel>(next));
    }
}

/// Law: `--adrfam` behaves symmetrically to `--trtype` for its own closed
/// set of address family texts.
pub proof fn lemma_adrfam_flag(rec: RecordModel, prog: Seq<char>, text: Seq<char>)
    ensures
        AddressFamily::spec_of_text(text) is Some ==> spec_parse(
            rec,
            seq![prog, "--adrfam"@, text],
        ) == Ok::<RecordModel, ErrorModel>(
            (RecordModel { adrfam: AddressFamily::spec_of_text(text).unwrap(), ..rec }),
        ),
        AddressFamily::spec_of_text(text) is None ==> spec_parse(
            rec,
            seq![prog, "--adrfam"@, text],
        ) == Err::<RecordModel, ErrorModel>(ErrorModel::UnrecognizedEnumValue(text)),
{
    lemma_flags_distinct();
    let toks = seq![prog, "--adrfam"@, text];
    assert(toks.len() == 3 && toks[1] == "--adrfam"@ && toks[2] == text);
    assert(toks[1] != "--nqn"@ && toks[1] != "--traddr"@ && toks[1] != "--trsvcid"@ && toks[1]
        != "--trtype"@);
    if AddressFamily::spec_of_text(text) is Some {
        let next = RecordModel { adrfam: AddressFamily::spec_of_text(text).unwrap(), ..rec };
        assert(spec_parse_from(next, toks, 3) == Ok::<RecordModel, ErrorModel>(next));
    }
}

/// Law: the same flag given twice is last-write-wins — the later `--trtype`
/// value silently overrides the earlier one, with no duplicate-flag error.
pub proof fn lemma_trtype_last_wins(
    rec: RecordModel,
    prog: Seq<char>,
    first: Seq<char>,
    second: Seq<char>,
)
    requires
        TransportType::spec_of_text(first) is Some,
        TransportType::spec_of_text(second) is Some,
    ensures
        spec_parse(rec, seq![prog, "--trtype"@, first, "--trtype"@, second]) == Ok::<
            RecordModel,
            ErrorModel,
        >((RecordModel { trtype: TransportType::spec_of_text(second).unwrap(), ..rec })),
{
    lemma_flags_distinct();
    let toks = seq![prog, "--trtype"@, first, "--trtype"@, second];
    assert(toks.len() == 5 && toks[1] == "--trtype"@ && toks[2] == first && toks[3]
        == "--trtype"@ && toks[4] == second);
    assert(toks[1] != "--nqn"@ && toks[1] != "--traddr"@ && toks[1] != "--trsvcid"@);
    let mid = RecordModel { trtype: TransportType::spec_of_text(first).unwrap(), ..rec };
    let last = RecordModel { trtype: TransportType::spec_of_text(second).unwrap(), ..rec };
    assert(spec_apply_flag(rec, toks[1], toks[2]) == Ok::<RecordModel, ErrorModel>(mid));
    assert(spec_parse_from(rec, toks, 1) == spec_parse_from(mid, toks, 3));
    assert(spec_apply_flag(mid, toks[3], toks[4]) == Ok::<RecordModel, ErrorModel>(last));
    assert(spec_parse_from(mid, toks, 3) == spec_parse_from(last, toks, 5));
    assert(spec_parse_from(last, toks, 5) == Ok::<RecordModel, ErrorModel>(last));
}

} // verus!

