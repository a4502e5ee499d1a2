//! What is proved, and how the answers of a proof system are reported.

use crate::circuit::FibonacciCircuit;
use crate::field::Scalar;
use std::collections::HashMap;
use vstd::prelude::*;
use vstd::string::StringExecFns;

verus! {

/// Why a proof could not be made or was not accepted.
#[derive(Debug, Clone, PartialEq, Eq)]
pub struct FibonacciError(pub String);

/// The values that `inputs` holds under `name`.
pub open spec fn named_values(
    inputs: Map<String, Vec<Scalar>>,
    name: Seq<char>,
) -> Option<Seq<Scalar>> {
    if exists|key: String| #[trigger] inputs.contains_key(key) && key@ == name {
        let key = choose|key: String| #[trigger] inputs.contains_key(key) && key@ == name;
        Some(inputs[key]@)
    } else {
        None
    }
}

/// The output that `inputs` claim: the first value under `out`.
pub open spec fn claimed_output(inputs: Map<String, Vec<Scalar>>) -> Option<Scalar> {
    match named_values(inputs, "out"@) {
        Some(values) => if values.len() > 0 {
            Some(values[0])
        } else {
            None
        },
        None => None,
    }
}

/// `public` are the public values of the claim that the output is `out`.
pub open spec fn is_public_input(public: Seq<Scalar>, out: Scalar) -> bool {
    &&& public.len() == 3
    &&& public[0]@ == 1
    &&& public[1]@ == 1
    &&& public[2] == out
}

/// `prove` may return `bytes` for a circuit whose one instance column holds `public`.
pub open spec fn may_prove<P: Fn(&FibonacciCircuit<Scalar>) -> Vec<u8>>(
    prove: P,
    public: Seq<Scalar>,
    bytes: Vec<u8>,
) -> bool {
    exists|circuit: FibonacciCircuit<Scalar>|
        circuit@ == seq![public] && #[trigger] call_ensures(prove, (&circuit,), bytes)
}

/// The values that public columns hold.
pub open spec fn column_values(columns: Seq<Vec<Scalar>>) -> Seq<Seq<Scalar>> {
    columns.map_values(|column: Vec<Scalar>| column@)
}

/// The numbers that public values stand for, column by column.
pub open spec fn numbers(columns: Seq<Seq<Scalar>>) -> Seq<Seq<nat>> {
    columns.map_values(|column: Seq<Scalar>| column.map_values(|value: Scalar| value@))
}

/// The `get` of `std::collections::HashMap`, with a borrowed name in place of an owned key.
/// A map holds at most one key that spells the name; where it holds one, this is its values.
#[verifier::external_body]
fn get_named<'a>(inputs: &'a HashMap<String, Vec<Scalar>>, name: &str) -> (r: Option<
    &'a Vec<Scalar>,
>)
    ensures
        r is Some <==> named_values(inputs@, name@) is Some,
        r matches Some(values) ==> named_values(inputs@, name@) == Some(values@),
{
    inputs.get(name)
}

/// The public values to prove: both starting terms, which are one, and the claimed output.
/// Without a claimed output there is nothing to prove.
pub fn public_input(inputs: &HashMap<String, Vec<Scalar>>) -> (r: Result<
    Vec<Scalar>,
    FibonacciError,
>)
    ensures
        match claimed_output(inputs@) {
            Some(out) => r matches Ok(public) && is_public_input(public@, out),
            None => r matches Err(error) && error.0@ == "Failed to get `out` value"@,
        },
{
    let a = Scalar::from_u64(1);
    let b = Scalar::from_u64(1);
    match get_named(inputs, "out") {
        Some(values) => {
            if values.len() > 0 {
                let out = values[0];
                let mut public: Vec<Scalar> = Vec::new();
                public.push(a);
                public.push(b);
                public.push(out);
                Ok(public)
            } else {
                Err(FibonacciError("Failed to get `out` value".to_owned()))
            }
        },
        None => Err(FibonacciError("Failed to get `out` value".to_owned())),
    }
}

/// `r` is a proof for the output that `inputs` claim, made by `prove`, together with the public
/// values that it is for; an error if `inputs` claim no output.
pub open spec fn generates<P: Fn(&FibonacciCircuit<Scalar>) -> Vec<u8>>(
    inputs: Map<String, Vec<Scalar>>,
    prove: P,
    r: Result<(Vec<u8>, Vec<Scalar>), FibonacciError>,
) -> bool {
    match claimed_output(inputs) {
        Some(out) => r matches Ok((bytes, public)) && is_public_input(public@, out) && may_prove(
            prove,
            public@,
            bytes,
        ),
        None => r matches Err(error) && error.0@ == "Failed to get `out` value"@,
    }
}

/// Has `prove` make a proof for the output that `inputs` claim. Returns the proof together
/// with the public values that it is for.
pub fn generate_halo2_proof<P: Fn(&FibonacciCircuit<Scalar>) -> Vec<u8>>(
    inputs: HashMap<String, Vec<Scalar>>,
    prove: P,
) -> (r: Result<(Vec<u8>, Vec<Scalar>), FibonacciError>)
    requires
        claimed_output(inputs@) matches Some(out) ==> forall|circuit: &FibonacciCircuit<Scalar>|
            circuit@.len() == 1 && is_public_input(circuit@[0], out) ==> #[trigger] call_requires(
                prove,
                (circuit,),
            ),
    ensures
        generates(inputs@, prove, r),
{
    let public = match public_input(&inputs) {
        Ok(public) => public,
        Err(error) => return Err(error),
    };
    let column = public.clone();
    assert(column@ == public@);
    let mut columns: Vec<Vec<Scalar>> = Vec::new();
    columns.push(column);
    let circuit = FibonacciCircuit { public_input: columns };
    assert(circuit@ == seq![public@]);
    let bytes = prove(&circuit);
    assert(may_prove(prove, public@, bytes));
    Ok((bytes, public))
}

/// `r` reports `answer`: an accepted proof as `true`, a refused one as an error that holds
/// the reason.
pub open spec fn reports(r: Result<bool, FibonacciError>, answer: Result<(), String>) -> bool {
    match answer {
        Ok(_) => r == Ok::<bool, FibonacciError>(true),
        Err(reason) => r matches Err(error) && error.0@ == "Verifying proof error: "@ + reason@,
    }
}

/// How the answer of a proof system on a proof is reported: `answer` is `Err` with a
/// rendering of its error where it refused the proof.
pub fn verification_outcome(answer: Result<(), String>) -> (r: Result<bool, FibonacciError>)
    ensures
        reports(r, answer),
{
    match answer {
        Ok(_) => Ok(true),
        Err(reason) => {
            let mut message = "Verifying proof error: ".to_owned();
            message.append(reason.as_str());
            Err(FibonacciError(message))
        },
    }
}

/// `r` reports what `verify` answers on the proof `bytes`, with one instance column that holds
/// `inputs`.
pub open spec fn judges<V: Fn(&Vec<u8>, &Vec<Vec<Scalar>>) -> Result<(), String>>(
    bytes: Vec<u8>,
    inputs: Seq<Scalar>,
    verify: V,
    r: Result<bool, FibonacciError>,
) -> bool {
    exists|columns: Vec<Vec<Scalar>>, answer: Result<(), String>|
        {
            &&& column_values(columns@) == seq![inputs]
            &&& #[trigger] call_ensures(verify, (&bytes, &columns), answer)
            &&& reports(r, answer)
        }
}

/// Has `verify` judge a proof against the public values in `inputs`, which fill the one
/// instance column, and reports its answer.
pub fn verify_halo2_proof<V: Fn(&Vec<u8>, &Vec<Vec<Scalar>>) -> Result<(), String>>(
    bytes: Vec<u8>,
    inputs: Vec<Scalar>,
    verify: V,
) -> (r: Result<bool, FibonacciError>)
    requires
        forall|columns: &Vec<Vec<Scalar>>|
            column_values(columns@) == seq![inputs@] ==> #[trigger] call_requires(
                verify,
                (&bytes, columns),
            ),
    ensures
        judges(bytes, inputs@, verify, r),
{
    let mut columns: Vec<Vec<Scalar>> = Vec::new();
    let ghost values = inputs@;
    columns.push(inputs);
    assert(column_values(columns@) == seq![values]);
    let answer = verify(&bytes, &columns);
    verification_outcome(answer)
}

} // verus!
