use vstd::prelude::*;

use crate::errors::RatrixError;
use crate::grid::lemma_grid_text_injective;
use crate::grid::process_file_contents;
use crate::grid::text_parses_to;
use crate::query::lookup_spec;
use crate::query::lookup_value;
use crate::query::line_text;
use crate::query::print_values;
use crate::structure::File;
use crate::text::split_spec;

verus! {

/// The invocation of the external decryption tool, word for word: the
/// program followed by the output-path flag, the output name, the
/// decrypt-mode flag and the source path. The caller spawns the first word
/// as the program with the rest as its arguments.
pub fn decrypt_command(decrypted_file_name: &str, file_path: &str) -> (args: Vec<String>)
    ensures
        args@.len() == 5,
        args@[0]@ == "gpg"@,
        args@[1]@ == "--output"@,
        args@[2]@ == decrypted_file_name@,
        args@[3]@ == "--decrypt"@,
        args@[4]@ == file_path@,
{
    let mut args: Vec<String> = Vec::new();
    args.push(String::from_str("gpg"));
    args.push(String::from_str("--output"));
    args.push(decrypted_file_name.to_owned());
    args.push(String::from_str("--decrypt"));
    args.push(file_path.to_owned());
    args
}

/// Decides the decryption step of acquire: the step succeeds exactly when
/// the tool could be spawned and exited successfully; any other outcome is
/// `DecryptionFailed`, and the plaintext must then not be read.
pub fn decrypt_outcome(spawn_ok: bool, exited_ok: bool) -> (r: Result<(), RatrixError>)
    ensures
        r is Ok <==> spawn_ok && exited_ok,
        r is Err ==> r == Err::<(), RatrixError>(RatrixError::DecryptionFailed),
{
    if spawn_ok && exited_ok {
        Ok(())
    } else {
        Err(RatrixError::DecryptionFailed)
    }
}

/// Decides the read step of acquire: with the plaintext in hand the
/// artifact exists, pairing the temporary file's name with the contents
/// read from it; without it the acquire fails with `ReadFailed`.
pub fn read_outcome(decrypted_file_name: &str, contents: Option<String>) -> (r: Result<
    File,
    RatrixError,
>)
    ensures
        r is Ok <==> contents is Some,
        r matches Ok(f) ==> contents matches Some(c) && f@.name == decrypted_file_name@
            && f@.contents == c@,
        r is Err ==> r == Err::<File, RatrixError>(RatrixError::ReadFailed),
{
    match contents {
        Some(c) => Ok(File::new(decrypted_file_name.to_owned(), c)),
        None => Err(RatrixError::ReadFailed),
    }
}

/// Decides the release step: failing to delete the temporary file is
/// `CleanupFailed`; it is reported, but never masks output already
/// produced.
pub fn cleanup_outcome(deleted: bool) -> (r: Result<(), RatrixError>)
    ensures
        r is Ok <==> deleted,
        r is Err ==> r == Err::<(), RatrixError>(RatrixError::CleanupFailed),
{
    if deleted {
        Ok(())
    } else {
        Err(RatrixError::CleanupFailed)
    }
}

/// One step of a run, for the caller to perform in order.
pub enum SessionAction {
    /// Print these lines to the output stream.
    EmitOutput(Vec<String>),
    /// Report this failure on the error stream.
    ReportError(RatrixError),
    /// Delete the temporary plaintext file.
    DeleteTempFile,
}

/// How many of the actions delete the temporary file.
pub open spec fn count_deletes(acts: Seq<SessionAction>) -> nat
    decreases acts.len(),
{
    if acts.len() == 0 {
        0
    } else {
        count_deletes(acts.drop_last()) + (if acts.last() is DeleteTempFile {
            1nat
        } else {
            0nat
        })
    }
}

/// Lays out everything one run does once the acquire attempt has finished:
/// parse the artifact, look up and emit each requested value, report any
/// failure — and delete the temporary file exactly once whenever acquire
/// succeeded, even when parsing or lookup fails, and never when it did not
/// succeed. The deletion always comes last.
pub fn plan_session(acquire: Result<File, RatrixError>, positions: &str) -> (acts: Vec<
    SessionAction,
>)
    ensures
        count_deletes(acts@) == (if acquire is Ok {
            1nat
        } else {
            0nat
        }),
        acquire matches Err(e) ==> acts@ == seq![SessionAction::ReportError(e)],
        acquire matches Ok(f) ==> acts@.len() == 2 && acts@[1] is DeleteTempFile,
        acquire matches Ok(f) && (forall|mv: Seq<Seq<Seq<int>>>|
            !text_parses_to(f@.contents, mv)) ==> acts@[0] == SessionAction::ReportError(
            RatrixError::MalformedGrid,
        ),
        forall|f: File, mv: Seq<Seq<Seq<int>>>|
            {
                &&& acquire == Ok::<File, RatrixError>(f)
                &&& #[trigger] text_parses_to(f@.contents, mv)
                &&& exists|k: int|
                    0 <= k < split_spec(positions@, ',').len() && lookup_spec(
                        mv,
                        #[trigger] split_spec(positions@, ',')[k],
                    ) is None
            } ==> acts@[0] == SessionAction::ReportError(RatrixError::InvalidCoordinate),
        forall|f: File, mv: Seq<Seq<Seq<int>>>|
            {
                &&& acquire == Ok::<File, RatrixError>(f)
                &&& #[trigger] text_parses_to(f@.contents, mv)
                &&& forall|k: int|
                    0 <= k < split_spec(positions@, ',').len() ==> lookup_spec(
                        mv,
                        #[trigger] split_spec(positions@, ',')[k],
                    ) is Some
            } ==> (acts@[0] matches SessionAction::EmitOutput(lines) && lines@.len()
                == split_spec(positions@, ',').len() && (forall|k: int|
                0 <= k < split_spec(positions@, ',').len() ==> lines@[k]@ == line_text(
                    #[trigger] split_spec(positions@, ',')[k],
                    lookup_value(mv, split_spec(positions@, ',')[k]),
                ))),
{
    let mut acts: Vec<SessionAction> = Vec::new();
    match acquire {
        Err(e) => {
            acts.push(SessionAction::ReportError(e));
            proof {
                assert(acts@ =~= seq![SessionAction::ReportError(e)]);
                assert(acts@.drop_last() =~= Seq::<SessionAction>::empty());
                assert(count_deletes(Seq::<SessionAction>::empty()) == 0);
                assert(acts@.last() == SessionAction::ReportError(e));
                assert(count_deletes(acts@) == count_deletes(acts@.drop_last()) + 0);
            }
        },
        Ok(f) => {
            match process_file_contents(&f) {
                Err(_) => {
                    acts.push(SessionAction::ReportError(RatrixError::MalformedGrid));
                },
                Ok(m) => {
                    match print_values(&m, positions) {
                        Ok(lines) => {
                            acts.push(SessionAction::EmitOutput(lines));
                        },
                        Err(_) => {
                            acts.push(SessionAction::ReportError(RatrixError::InvalidCoordinate));
                        },
                    }
                    proof {
                        assert forall|mv: Seq<Seq<Seq<int>>>|
                            #[trigger] text_parses_to(f@.contents, mv) implies mv == m@ by {
                            lemma_grid_text_injective(mv, m@);
                        }
                    }
                },
            }
            acts.push(SessionAction::DeleteTempFile);
            proof {
                let s = acts@;
                assert(s.len() == 2);
                assert(count_deletes(Seq::<SessionAction>::empty()) == 0);
                assert(s.drop_last() =~= seq![s[0]]);
                assert(seq![s[0]].drop_last() =~= Seq::<SessionAction>::empty());
                assert(!(s[0] is DeleteTempFile));
                assert(count_deletes(seq![s[0]]) == 0);
                assert(s.last() is DeleteTempFile);
                assert(count_deletes(s) == count_deletes(s.drop_last()) + 1);
            }
        },
    }
    acts
}

} // verus!
