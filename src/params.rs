//! Checks on the parameters of a split request.
use vstd::prelude::*;

verus! {

#[verifier::external_type_specification]
#[verifier::external_body]
pub struct ExIoError(std::io::Error);

/// Errors of the command line.
#[derive(Debug)]
pub enum CliError {
    InvalidFormat(String),
    ShareValidation(String),
    InsufficientShares { needed: u8, available: usize },
    Config(String),
    Io(std::io::Error),
    Serialization(String),
}

/// Why split parameters are rejected.
#[derive(Debug, Clone, Copy, PartialEq, Eq, Structural)]
pub enum SplitParamsError {
    /// The threshold is 0.
    ZeroThreshold,
    /// Fewer shares than the threshold were asked for.
    TooFewShares { shares: u8, threshold: u8 },
    /// More than one source of the secret was named.
    ConflictingInputs,
}

/// Accepts a threshold of at least 1 and at least as many shares as the threshold.
pub fn validate_sharing_params(threshold: u8, shares: u8) -> (r: Result<(), &'static str>)
    ensures
        r is Ok <==> (threshold >= 1 && shares >= threshold),
{
    if threshold == 0 {
        return Err("Threshold must be at least 1");
    }
    if shares < threshold {
        return Err("Number of shares must be at least the threshold");
    }
    Ok(())
}

/// Checks a split request: a threshold of at least 1, at least as many shares
/// as the threshold, and at most one source of the secret among an environment
/// variable, an interactive prompt and a file.
pub fn validate_split(
    shares: u8,
    threshold: u8,
    from_env_var: bool,
    interactive: bool,
    from_file: bool,
) -> (r: Result<(), SplitParamsError>)
    ensures
        threshold == 0 ==> r == Err::<(), SplitParamsError>(SplitParamsError::ZeroThreshold),
        threshold != 0 && shares < threshold ==> r == Err::<(), SplitParamsError>(
            SplitParamsError::TooFewShares { shares, threshold },
        ),
        threshold != 0 && shares >= threshold ==> (r is Ok <==> (from_env_var as int + interactive as int
            + from_file as int) <= 1),
        r is Err && threshold != 0 && shares >= threshold ==> r == Err::<(), SplitParamsError>(
            SplitParamsError::ConflictingInputs,
        ),
{
    if threshold == 0 {
        return Err(SplitParamsError::ZeroThreshold);
    }
    if shares < threshold {
        return Err(SplitParamsError::TooFewShares { shares, threshold });
    }
    let mut count: u8 = 0;
    if from_env_var {
        count += 1;
    }
    if interactive {
        count += 1;
    }
    if from_file {
        count += 1;
    }
    if count > 1 {
        return Err(SplitParamsError::ConflictingInputs);
    }
    Ok(())
}

} // verus!
