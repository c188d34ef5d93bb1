//! The command-line grammar of the prover and the verifier.
//!
//! Two commands are understood. `prove` takes the original image path
//! (`-i`, required) and the crop rectangle (`-x`, `-y`, `-w`, `-h`, each
//! optional with a default). `verify` takes the edited image path (`-e`)
//! and the metadata bundle path (`-m`), both required. Flags come in
//! `flag value` pairs in any order; of a repeated flag the first
//! occurrence counts. The arguments are the words after the program name.

use vstd::prelude::*;
use vstd::string::is_ascii_spec_bytes;

verus! {

/// A parsed invocation: which command runs and with which parameters.
#[derive(Clone, Debug)]
pub enum Zkedit {
    Prove { orig_img_path: String, crop_x: u32, crop_y: u32, crop_w: u32, crop_h: u32 },
    Verify { edited_image_path: String, metadata_path: String },
}

/// Why an argument list is rejected.
#[derive(Clone, Copy, PartialEq, Eq, Structural, Debug)]
pub enum CliError {
    /// No command word was given.
    MissingCommand,
    /// The command word is neither `prove` nor `verify`.
    UnknownCommand,
    /// The words after the command are not pairs of a known flag and a value.
    MalformedFlags,
    /// A required path flag is absent.
    MissingRequired,
    /// A rectangle flag's value is not a decimal number that fits 32 bits.
    InvalidNumber,
}

/// A decimal digit.
pub open spec fn is_digit_char(c: char) -> bool {
    48 <= c as nat <= 57
}

/// A nonempty string of decimal digits.
pub open spec fn is_dec_string(s: Seq<char>) -> bool {
    s.len() > 0 && forall|i: int| 0 <= i < s.len() ==> is_digit_char(#[trigger] s[i])
}

/// The number a string of decimal digits denotes.
pub open spec fn dec_value(s: Seq<char>) -> nat
    decreases s.len(),
{
    if s.len() == 0 {
        0
    } else {
        (dec_value(s.drop_last()) * 10 + (s.last() as nat - 48)) as nat
    }
}

/// Parses a nonempty all-decimal string as a 32-bit number; anything else,
/// and any value too large for 32 bits, is rejected.
pub fn parse_u32(s: &String) -> (r: Option<u32>)
    ensures
        r is Some ==> is_dec_string(s@) && dec_value(s@) <= u32::MAX && r->0 == dec_value(s@),
        r is None ==> !is_dec_string(s@) || dec_value(s@) > u32::MAX,
{
    let a = s.as_str();
    if !a.is_ascii() {
        proof {
            if is_dec_string(s@) {
                assert(vstd::utf8::is_ascii_chars(s@)) by {
                    assert forall|i: int| 0 <= i < s@.len() implies '\0' <= (#[trigger] s@[i])
                        <= '\u{7f}' by {
                        assert(is_digit_char(s@[i]));
                        lemma_digit_is_ascii(s@[i]);
                    }
                }
            }
        }
        return None;
    }
    let bytes = a.as_bytes();
    proof {
        is_ascii_spec_bytes(a);
        vstd::utf8::is_ascii_chars_nat_bound(s@);
    }
    if bytes.len() == 0 {
        return None;
    }
    let n = bytes.len();
    let mut acc: u64 = 0;
    let mut i: usize = 0;
    proof {
        assert(s@.take(0) =~= Seq::<char>::empty());
    }
    while i < n
        invariant
            i <= n,
            n == s@.len(),
            bytes@ == (Seq::new(s@.len(), |q: int| s@[q] as u8)),
            forall|q: int| 0 <= q < s@.len() ==> ((#[trigger] s@[q]) as nat) < 128,
            forall|q: int| 0 <= q < i ==> is_digit_char(#[trigger] s@[q]),
            acc == dec_value(s@.take(i as int)),
            acc <= u32::MAX,
        decreases n - i,
    {
        let b = bytes[i];
        proof {
            lemma_ascii_byte_value(s@[i as int], b);
        }
        if b < 48 || b > 57 {
            proof {
                assert(!is_digit_char(s@[i as int]));
            }
            return None;
        }
        proof {
            assert(is_digit_char(s@[i as int]));
        }
        let d = (b - 48) as u64;
        let next = acc * 10 + d;
        proof {
            let pre = s@.take(i as int + 1);
            assert(pre.drop_last() =~= s@.take(i as int));
            assert(pre.last() == s@[i as int]);
            assert(next == dec_value(pre));
        }
        if next > 0xFFFF_FFFF {
            proof {
                if is_dec_string(s@) {
                    lemma_dec_value_extend(s@, i as int + 1);
                }
            }
            return None;
        }
        acc = next;
        i = i + 1;
    }
    proof {
        assert(s@.take(n as int) =~= s@);
    }
    Some(acc as u32)
}

/// A decimal digit lies in the ASCII range.
proof fn lemma_digit_is_ascii(c: char)
    requires
        is_digit_char(c),
    ensures
        '\0' <= c <= '\u{7f}',
{
}

/// An ASCII character's byte carries exactly its code point.
proof fn lemma_ascii_byte_value(c: char, b: u8)
    requires
        (c as nat) < 128,
        b == (c as u8),
    ensures
        b as nat == c as nat,
{
}

/// A digit string's value only grows as more digits follow.
proof fn lemma_dec_value_extend(s: Seq<char>, i: int)
    requires
        0 <= i <= s.len(),
        is_dec_string(s),
    ensures
        dec_value(s.take(i)) <= dec_value(s),
    decreases s.len() - i,
{
    if i < s.len() {
        lemma_dec_value_extend(s, i + 1);
        let pre = s.take(i + 1);
        assert(pre.drop_last() =~= s.take(i));
        assert(dec_value(s.take(i)) <= dec_value(pre)) by {
            assert(is_digit_char(s[i]));
            assert(pre.last() == s[i]);
            assert(dec_value(pre) == dec_value(s.take(i)) * 10 + (s[i] as nat - 48));
            assert(dec_value(s.take(i)) * 10 >= dec_value(s.take(i))) by (nonlinear_arith);
        }
    } else {
        assert(s.take(i) =~= s);
    }
}

/// The value after the first occurrence of `flag` in a list of
/// `flag value` pairs.
pub open spec fn spec_flag_value(tail: Seq<Seq<char>>, flag: Seq<char>) -> Option<Seq<char>>
    decreases tail.len(),
{
    if tail.len() < 2 {
        None
    } else if tail[0] == flag {
        Some(tail[1])
    } else {
        spec_flag_value(tail.skip(2), flag)
    }
}

/// The words form `flag value` pairs whose flags are all known.
pub open spec fn spec_flags_wf(tail: Seq<Seq<char>>, allowed: Seq<Seq<char>>) -> bool
    decreases tail.len(),
{
    if tail.len() == 0 {
        true
    } else if tail.len() == 1 {
        false
    } else {
        allowed.contains(tail[0]) && spec_flags_wf(tail.skip(2), allowed)
    }
}

/// The flags of the `prove` command.
pub open spec fn prove_flags() -> Seq<Seq<char>> {
    seq!["-i"@, "-x"@, "-y"@, "-w"@, "-h"@]
}

/// The flags of the `verify` command.
pub open spec fn verify_flags() -> Seq<Seq<char>> {
    seq!["-e"@, "-m"@]
}

/// The views of an argument list.
pub open spec fn arg_views(args: Seq<String>) -> Seq<Seq<char>> {
    args.map_values(|s: String| s@)
}

/// The view of an optionally found flag value.
pub open spec fn opt_view(o: Option<String>) -> Option<Seq<char>> {
    match o {
        Some(s) => Some(s@),
        None => None,
    }
}

/// A flag value that, if present, is a decimal number fitting 32 bits.
pub open spec fn num_ok(v: Option<Seq<char>>) -> bool {
    v is Some ==> is_dec_string(v->0) && dec_value(v->0) <= u32::MAX
}

/// The number a flag value denotes, or the default when it is absent.
pub open spec fn num_or(v: Option<Seq<char>>, d: nat) -> nat {
    if v is Some {
        dec_value(v->0)
    } else {
        d
    }
}

/// What `parse_options` returns when the command word is `prove`.
pub open spec fn prove_case(tail: Seq<Seq<char>>, r: Result<Zkedit, CliError>) -> bool {
    let vi = spec_flag_value(tail, "-i"@);
    let vx = spec_flag_value(tail, "-x"@);
    let vy = spec_flag_value(tail, "-y"@);
    let vw = spec_flag_value(tail, "-w"@);
    let vh = spec_flag_value(tail, "-h"@);
    if !spec_flags_wf(tail, prove_flags()) {
        r == Err::<Zkedit, CliError>(CliError::MalformedFlags)
    } else if vi is None {
        r == Err::<Zkedit, CliError>(CliError::MissingRequired)
    } else if !(num_ok(vx) && num_ok(vy) && num_ok(vw) && num_ok(vh)) {
        r == Err::<Zkedit, CliError>(CliError::InvalidNumber)
    } else {
        &&& r is Ok
        &&& r->Ok_0 matches Zkedit::Prove { orig_img_path, crop_x, crop_y, crop_w, crop_h }
            && orig_img_path@ == vi->0 && crop_x == num_or(vx, 55) && crop_y == num_or(vy, 30)
            && crop_w == num_or(vw, 446) && crop_h == num_or(vh, 361)
    }
}

/// What `parse_options` returns when the command word is `verify`.
pub open spec fn verify_case(tail: Seq<Seq<char>>, r: Result<Zkedit, CliError>) -> bool {
    let ve = spec_flag_value(tail, "-e"@);
    let vm = spec_flag_value(tail, "-m"@);
    if !spec_flags_wf(tail, verify_flags()) {
        r == Err::<Zkedit, CliError>(CliError::MalformedFlags)
    } else if ve is None || vm is None {
        r == Err::<Zkedit, CliError>(CliError::MissingRequired)
    } else {
        &&& r is Ok
        &&& r->Ok_0 matches Zkedit::Verify { edited_image_path, metadata_path }
            && edited_image_path@ == ve->0 && metadata_path@ == vm->0
    }
}

/// Whether two byte strings hold the same bytes.
fn bytes_eq(x: &[u8], y: &[u8]) -> (r: bool)
    ensures
        r == (x@ == y@),
{
    if x.len() != y.len() {
        return false;
    }
    let n = x.len();
    let mut i: usize = 0;
    while i < n
        invariant
            i <= n,
            n == x@.len(),
            x@.len() == y@.len(),
            forall|q: int| 0 <= q < i ==> x@[q] == y@[q],
        decreases n - i,
    {
        if x[i] != y[i] {
            return false;
        }
        i = i + 1;
    }
    proof {
        assert(x@ =~= y@);
    }
    true
}

/// Whether a word equals a pattern, as character strings.
fn str_matches(s: &String, pat: &str) -> (r: bool)
    ensures
        r == (s@ == pat@),
{
    let a = s.as_str();
    let r = bytes_eq(a.as_bytes(), pat.as_bytes());
    proof {
        vstd::utf8::encode_utf8_decode_utf8(a@);
        vstd::utf8::encode_utf8_decode_utf8(pat@);
    }
    r
}

/// The index of the flag word that equals `word`, or the flag count when
/// none does.
fn find_flag(word: &String, flags: &Vec<String>) -> (r: usize)
    ensures
        r <= flags@.len(),
        r < flags@.len() ==> (flags@[r as int])@ == word@,
        r == flags@.len() ==> forall|q: int|
            0 <= q < flags@.len() ==> (#[trigger] flags@[q])@ != word@,
{
    let nf = flags.len();
    let mut k: usize = 0;
    while k < nf
        invariant
            k <= nf,
            nf == flags@.len(),
            forall|q: int| 0 <= q < k ==> (#[trigger] flags@[q])@ != word@,
        decreases nf - k,
    {
        if str_matches(word, flags[k].as_str()) {
            return k;
        }
        k = k + 1;
    }
    nf
}

/// Scans the words after the command as `flag value` pairs over the given
/// distinct flag words; of a repeated flag the first value counts.
fn scan_flags(args: &Vec<String>, flags: &Vec<String>) -> (r: Result<Vec<Option<String>>, CliError>)
    requires
        args@.len() >= 1,
        forall|k1: int, k2: int|
            0 <= k1 < k2 < flags@.len() ==> (#[trigger] flags@[k1])@ != (#[trigger] flags@[k2])@,
    ensures
        ({
            let tail = arg_views(args@).skip(1);
            let fl = arg_views(flags@);
            &&& (r is Err <==> !spec_flags_wf(tail, fl))
            &&& (r is Err ==> r == Err::<Vec<Option<String>>, CliError>(CliError::MalformedFlags))
            &&& (r is Ok ==> r->Ok_0@.len() == flags@.len() && forall|k: int|
                0 <= k < flags@.len() ==> opt_view(#[trigger] r->Ok_0@[k]) == spec_flag_value(
                    tail,
                    flags@[k]@,
                ))
        }),
{
    let ghost tail = arg_views(args@).skip(1);
    let ghost fl = arg_views(flags@);
    let nf = flags.len();
    let mut out: Vec<Option<String>> = Vec::new();
    let mut z: usize = 0;
    while z < nf
        invariant
            z <= nf,
            out@.len() == z,
            forall|k: int| 0 <= k < z ==> (#[trigger] out@[k]) is None,
        decreases nf - z,
    {
        out.push(None);
        z = z + 1;
    }
    let n = args.len();
    let mut i: usize = 1;
    proof {
        assert(tail.skip(0) =~= tail);
    }
    while i < n
        invariant
            1 <= i <= n,
            n == args@.len(),
            nf == flags@.len(),
            out@.len() == nf,
            tail == arg_views(args@).skip(1),
            fl == arg_views(flags@),
            forall|k1: int, k2: int|
                0 <= k1 < k2 < flags@.len() ==> (#[trigger] flags@[k1])@ != (
                #[trigger] flags@[k2])@,
            spec_flags_wf(tail, fl) == spec_flags_wf(tail.skip(i - 1), fl),
            forall|k: int|
                0 <= k < nf ==> spec_flag_value(tail, flags@[k]@) == (if (
                #[trigger] out@[k]) is Some {
                    opt_view(out@[k])
                } else {
                    spec_flag_value(tail.skip(i - 1), flags@[k]@)
                }),
        decreases n - i,
    {
        let ghost rem = tail.skip(i - 1);
        proof {
            assert(rem.len() == n - i);
            assert(rem[0] == args@[i as int]@);
            if i + 1 < n {
                assert(rem[1] == args@[i + 1]@);
            }
        }
        if n - i < 2 {
            proof {
                assert(!spec_flags_wf(rem, fl));
            }
            return Err(CliError::MalformedFlags);
        }
        let k = find_flag(&args[i], flags);
        let ghost rem2 = tail.skip(i + 1);
        proof {
            assert(rem.skip(2) =~= rem2);
            assert(forall|q: int| 0 <= q < fl.len() ==> #[trigger] fl[q] == flags@[q]@);
        }
        if k == nf {
            proof {
                assert(!fl.contains(rem[0]));
                assert(!spec_flags_wf(rem, fl));
            }
            return Err(CliError::MalformedFlags);
        }
        proof {
            assert(fl[k as int] == args@[i as int]@);
            assert(fl.contains(rem[0]));
            assert(spec_flags_wf(rem, fl) == spec_flags_wf(rem2, fl));
        }
        let already = out[k].is_some();
        if !already {
            let v = args[i + 1].clone();
            out.set(k, Some(v));
        }
        proof {
            assert forall|q: int| 0 <= q < nf implies spec_flag_value(tail, flags@[q]@) == (if (
            #[trigger] out@[q]) is Some {
                opt_view(out@[q])
            } else {
                spec_flag_value(rem2, flags@[q]@)
            }) by {
                if q == k {
                    assert(spec_flag_value(rem, flags@[q]@) == Some(rem[1]));
                } else {
                    assert(flags@[q]@ != rem[0]);
                    assert(spec_flag_value(rem, flags@[q]@) == spec_flag_value(
                        rem2,
                        flags@[q]@,
                    ));
                }
            }
        }
        i = i + 2;
    }
    proof {
        assert(tail.skip(i - 1) =~= Seq::<Seq<char>>::empty());
        assert(spec_flags_wf(tail, fl));
    }
    Ok(out)
}

/// Parses the words after the program name as one invocation of the tool.
pub fn parse_options(args: &Vec<String>) -> (r: Result<Zkedit, CliError>)
    ensures
        r == Err::<Zkedit, CliError>(CliError::MissingCommand) <==> args@.len() == 0,
        args@.len() > 0 && args@[0]@ != "prove"@ && args@[0]@ != "verify"@ <==> r == Err::<
            Zkedit,
            CliError,
        >(CliError::UnknownCommand),
        args@.len() > 0 && args@[0]@ == "prove"@ ==> prove_case(arg_views(args@).skip(1), r),
        args@.len() > 0 && args@[0]@ == "verify"@ ==> verify_case(arg_views(args@).skip(1), r),
{
    if args.len() == 0 {
        return Err(CliError::MissingCommand);
    }
    if str_matches(&args[0], "prove") {
        let mut flags: Vec<String> = Vec::new();
        flags.push("-i".to_owned());
        flags.push("-x".to_owned());
        flags.push("-y".to_owned());
        flags.push("-w".to_owned());
        flags.push("-h".to_owned());
        proof {
            reveal_strlit("prove");
            reveal_strlit("verify");
            assert("prove"@.len() != "verify"@.len());
            reveal_strlit("-i");
            reveal_strlit("-x");
            reveal_strlit("-y");
            reveal_strlit("-w");
            reveal_strlit("-h");
            assert(arg_views(flags@) =~= prove_flags());
            assert("-i"@[1] == 'i' && "-x"@[1] == 'x' && "-y"@[1] == 'y' && "-w"@[1] == 'w'
                && "-h"@[1] == 'h');
            assert('i' != 'x' && 'i' != 'y' && 'i' != 'w' && 'i' != 'h' && 'x' != 'y' && 'x'
                != 'w' && 'x' != 'h' && 'y' != 'w' && 'y' != 'h' && 'w' != 'h');
            assert("-i"@ != "-x"@ && "-i"@ != "-y"@ && "-i"@ != "-w"@ && "-i"@ != "-h"@);
            assert("-x"@ != "-y"@ && "-x"@ != "-w"@ && "-x"@ != "-h"@);
            assert("-y"@ != "-w"@ && "-y"@ != "-h"@ && "-w"@ != "-h"@);
        }
        let scanned = scan_flags(args, &flags);
        match scanned {
            Err(e) => Err(e),
            Ok(vals) => {
                let vi = &vals[0];
                match vi {
                    None => Err(CliError::MissingRequired),
                    Some(path) => {
                        let crop_x = match parse_flag_number(&vals[1]) {
                            Ok(v) => v,
                            Err(e) => {
                                return Err(e);
                            },
                        };
                        let crop_y = match parse_flag_number(&vals[2]) {
                            Ok(v) => v,
                            Err(e) => {
                                return Err(e);
                            },
                        };
                        let crop_w = match parse_flag_number(&vals[3]) {
                            Ok(v) => v,
                            Err(e) => {
                                return Err(e);
                            },
                        };
                        let crop_h = match parse_flag_number(&vals[4]) {
                            Ok(v) => v,
                            Err(e) => {
                                return Err(e);
                            },
                        };
                        let crop_x = if vals[1].is_some() {
                            crop_x
                        } else {
                            55
                        };
                        let crop_y = if vals[2].is_some() {
                            crop_y
                        } else {
                            30
                        };
                        let crop_w = if vals[3].is_some() {
                            crop_w
                        } else {
                            446
                        };
                        let crop_h = if vals[4].is_some() {
                            crop_h
                        } else {
                            361
                        };
                        Ok(Zkedit::Prove {
                            orig_img_path: path.clone(),
                            crop_x,
                            crop_y,
                            crop_w,
                            crop_h,
                        })
                    },
                }
            },
        }
    } else if str_matches(&args[0], "verify") {
        let mut flags: Vec<String> = Vec::new();
        flags.push("-e".to_owned());
        flags.push("-m".to_owned());
        proof {
            reveal_strlit("prove");
            reveal_strlit("verify");
            assert("prove"@.len() != "verify"@.len());
            reveal_strlit("-e");
            reveal_strlit("-m");
            assert(arg_views(flags@) =~= verify_flags());
            assert("-e"@[1] == 'e' && "-m"@[1] == 'm');
            assert('e' != 'm');
            assert("-e"@ != "-m"@);
        }
        let scanned = scan_flags(args, &flags);
        match scanned {
            Err(e) => Err(e),
            Ok(vals) => {
                match (&vals[0], &vals[1]) {
                    (Some(e_path), Some(m_path)) => Ok(Zkedit::Verify {
                        edited_image_path: e_path.clone(),
                        metadata_path: m_path.clone(),
                    }),
                    _ => Err(CliError::MissingRequired),
                }
            },
        }
    } else {
        proof {
            reveal_strlit("prove");
            reveal_strlit("verify");
        }
        Err(CliError::UnknownCommand)
    }
}

/// Parses an optional numeric flag value, with absence allowed.
fn parse_flag_number(v: &Option<String>) -> (r: Result<u32, CliError>)
    ensures
        r is Ok <==> num_ok(opt_view(*v)),
        r is Err ==> r == Err::<u32, CliError>(CliError::InvalidNumber),
        r is Ok && *v is Some ==> r->Ok_0 == dec_value((*v)->0@),
{
    match v {
        Some(s) => {
            match parse_u32(s) {
                Some(x) => Ok(x),
                None => Err(CliError::InvalidNumber),
            }
        },
        None => Ok(0),
    }
}

} // verus!
