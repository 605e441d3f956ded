//! The order of work of a split, as decisions: the host performs one action at a
//! time and reports whether it succeeded.
use vstd::prelude::*;

use crate::strings::join2;

use super::split::{
    appended_extension, debuglink_argument, debuglink_option, directory_of, parent_directory, texts,
    DebugSplit, SplitMechanism,
};

verus! {

/// Something for the host to do.
#[derive(Debug)]
pub enum SplitAction {
    /// Run a tool in the directory of the binary.
    Run { program: String, arguments: Vec<String> },
    /// Give `to` the permissions of `from`.
    CopyPermissions { from: String, to: String },
    /// Move `from` over `to`.
    Rename { from: String, to: String },
    /// Remove a file; whether that succeeds makes no difference.
    Remove { path: String },
    /// Read both files again and judge them.
    Inspect,
    /// Nothing: the split stands.
    Done,
    /// Nothing: report the first failure.
    Fail,
}

impl SplitAction {
    pub open spec fn is_run(&self, with: Seq<char>, options: Seq<Seq<char>>) -> bool {
        match *self {
            SplitAction::Run { program, arguments } => program@ == with && texts(arguments@)
                == options,
            _ => false,
        }
    }

    pub open spec fn is_copy(&self, source: Seq<char>, target: Seq<char>) -> bool {
        match *self {
            SplitAction::CopyPermissions { from, to } => from@ == source && to@ == target,
            _ => false,
        }
    }

    pub open spec fn is_rename(&self, source: Seq<char>, target: Seq<char>) -> bool {
        match *self {
            SplitAction::Rename { from, to } => from@ == source && to@ == target,
            _ => false,
        }
    }

    pub open spec fn is_remove(&self, file: Seq<char>) -> bool {
        match *self {
            SplitAction::Remove { path } => path@ == file,
            _ => false,
        }
    }
}

/// Where a split of an ELF binary stands.
#[derive(Clone, Copy, Debug, PartialEq, Eq, Structural)]
pub enum GnuStage {
    KeepDebug,
    Strip,
    AddLink,
    CopyPermissions,
    Replace,
    DropStripped { failed: bool },
    DropLinked,
    Inspect,
    Done,
    Failed,
}

/// The stage after the action of `stage` was tried.
///
/// The binary is stripped to a sibling and moved into place last, so that no
/// failure leaves a half-written binary behind. The link is added after the
/// symbol file is final, because it records that file's checksum.
pub open spec fn gnu_next(stage: GnuStage, succeeded: bool) -> GnuStage {
    match stage {
        GnuStage::KeepDebug => if succeeded { GnuStage::Strip } else { GnuStage::Failed },
        GnuStage::Strip => if succeeded {
            GnuStage::AddLink
        } else {
            GnuStage::DropStripped { failed: true }
        },
        GnuStage::AddLink => if succeeded {
            GnuStage::CopyPermissions
        } else {
            GnuStage::DropStripped { failed: true }
        },
        GnuStage::CopyPermissions => if succeeded {
            GnuStage::Replace
        } else {
            GnuStage::DropStripped { failed: true }
        },
        GnuStage::Replace => GnuStage::DropStripped { failed: !succeeded },
        GnuStage::DropStripped { failed } => if failed {
            GnuStage::DropLinked
        } else {
            GnuStage::Inspect
        },
        GnuStage::DropLinked => GnuStage::Failed,
        GnuStage::Inspect => if succeeded { GnuStage::Done } else { GnuStage::Failed },
        GnuStage::Done => GnuStage::Done,
        GnuStage::Failed => GnuStage::Failed,
    }
}

impl GnuStage {
    pub fn next(self, succeeded: bool) -> (stage: GnuStage)
        ensures
            stage == gnu_next(self, succeeded),
    {
        match self {
            GnuStage::KeepDebug => if succeeded {
                GnuStage::Strip
            } else {
                GnuStage::Failed
            },
            GnuStage::Strip => if succeeded {
                GnuStage::AddLink
            } else {
                GnuStage::DropStripped { failed: true }
            },
            GnuStage::AddLink => if succeeded {
                GnuStage::CopyPermissions
            } else {
                GnuStage::DropStripped { failed: true }
            },
            GnuStage::CopyPermissions => if succeeded {
                GnuStage::Replace
            } else {
                GnuStage::DropStripped { failed: true }
            },
            GnuStage::Replace => GnuStage::DropStripped { failed: !succeeded },
            GnuStage::DropStripped { failed } => if failed {
                GnuStage::DropLinked
            } else {
                GnuStage::Inspect
            },
            GnuStage::DropLinked => GnuStage::Failed,
            GnuStage::Inspect => if succeeded {
                GnuStage::Done
            } else {
                GnuStage::Failed
            },
            GnuStage::Done => GnuStage::Done,
            GnuStage::Failed => GnuStage::Failed,
        }
    }
}

/// The files and tools of a split of an ELF binary.
#[derive(Clone, Debug)]
pub struct GnuPlan {
    pub binary: String,
    pub symbol_file: String,
    pub directory: String,
    pub stripped: String,
    pub linked: String,
    pub objcopy: String,
    pub strip: String,
}

impl GnuPlan {
    /// A plan for `binary`, with its symbols beside it unless asked otherwise.
    pub fn new(binary: String, requested: Option<String>, objcopy: String, strip: String) -> (plan:
        Self)
        ensures
            plan.binary@ == binary@,
            plan.symbol_file@ == match requested {
                Some(path) => path@,
                None => binary@ + ".debug"@,
            },
            plan.directory@ == directory_of(binary@),
            plan.stripped@ == binary@ + ".kernal-split-stripped"@,
            plan.linked@ == binary@ + ".kernal-split-linked"@,
            plan.objcopy@ == objcopy@,
            plan.strip@ == strip@,
    {
        let symbol_file = match requested {
            Some(path) => path,
            None => appended_extension(binary.as_str(), ".debug"),
        };
        GnuPlan {
            symbol_file,
            directory: parent_directory(binary.as_str()),
            stripped: appended_extension(binary.as_str(), ".kernal-split-stripped"),
            linked: appended_extension(binary.as_str(), ".kernal-split-linked"),
            binary,
            objcopy,
            strip,
        }
    }

    /// What to do at a stage.
    pub fn action(&self, stage: GnuStage) -> (action: SplitAction)
        ensures
            match stage {
                GnuStage::KeepDebug => action.is_run(
                    self.objcopy@,
                    seq!["--only-keep-debug"@, self.binary@, self.symbol_file@],
                ),
                GnuStage::Strip => action.is_run(
                    self.strip@,
                    seq!["--strip-debug"@, "-o"@, self.stripped@, self.binary@],
                ),
                GnuStage::AddLink => action.is_run(
                    self.objcopy@,
                    seq![
                        debuglink_option(self.symbol_file@, self.directory@),
                        self.stripped@,
                        self.linked@,
                    ],
                ),
                GnuStage::CopyPermissions => action.is_copy(self.binary@, self.linked@),
                GnuStage::Replace => action.is_rename(self.linked@, self.binary@),
                GnuStage::DropStripped { failed } => action.is_remove(self.stripped@),
                GnuStage::DropLinked => action.is_remove(self.linked@),
                GnuStage::Inspect => action is Inspect,
                GnuStage::Done => action is Done,
                GnuStage::Failed => action is Fail,
            },
    {
        match stage {
            GnuStage::KeepDebug => {
                let mut arguments: Vec<String> = Vec::new();
                arguments.push("--only-keep-debug".to_owned());
                arguments.push(self.binary.clone());
                arguments.push(self.symbol_file.clone());
                assert(texts(arguments@) =~= seq![
                    "--only-keep-debug"@,
                    self.binary@,
                    self.symbol_file@,
                ]);
                SplitAction::Run { program: self.objcopy.clone(), arguments }
            },
            GnuStage::Strip => {
                let mut arguments: Vec<String> = Vec::new();
                arguments.push("--strip-debug".to_owned());
                arguments.push("-o".to_owned());
                arguments.push(self.stripped.clone());
                arguments.push(self.binary.clone());
                assert(texts(arguments@) =~= seq![
                    "--strip-debug"@,
                    "-o"@,
                    self.stripped@,
                    self.binary@,
                ]);
                SplitAction::Run { program: self.strip.clone(), arguments }
            },
            GnuStage::AddLink => {
                let mut arguments: Vec<String> = Vec::new();
                arguments.push(
                    debuglink_argument(self.symbol_file.as_str(), self.directory.as_str()),
                );
                arguments.push(self.stripped.clone());
                arguments.push(self.linked.clone());
                assert(texts(arguments@) =~= seq![
                    debuglink_option(self.symbol_file@, self.directory@),
                    self.stripped@,
                    self.linked@,
                ]);
                SplitAction::Run { program: self.objcopy.clone(), arguments }
            },
            GnuStage::CopyPermissions => SplitAction::CopyPermissions {
                from: self.binary.clone(),
                to: self.linked.clone(),
            },
            GnuStage::Replace => SplitAction::Rename {
                from: self.linked.clone(),
                to: self.binary.clone(),
            },
            GnuStage::DropStripped { failed: _ } => SplitAction::Remove {
                path: self.stripped.clone(),
            },
            GnuStage::DropLinked => SplitAction::Remove { path: self.linked.clone() },
            GnuStage::Inspect => SplitAction::Inspect,
            GnuStage::Done => SplitAction::Done,
            GnuStage::Failed => SplitAction::Fail,
        }
    }

    /// The pair that the plan leads to.
    pub fn into_split(self, identity: String) -> (split: DebugSplit)
        ensures
            split.spec_binary() == self.binary@,
            split.spec_symbol_file() == self.symbol_file@,
            split.spec_mechanism() == SplitMechanism::GnuDebugLink,
            split.spec_identity() == identity@,
    {
        DebugSplit::assemble(self.binary, self.symbol_file, SplitMechanism::GnuDebugLink, identity)
    }
}

/// The stage that a history of outcomes leads to.
pub open spec fn gnu_stage_after(outcomes: Seq<bool>) -> GnuStage
    decreases outcomes.len(),
{
    if outcomes.len() == 0 {
        GnuStage::KeepDebug
    } else {
        gnu_next(gnu_stage_after(outcomes.drop_last()), outcomes.last())
    }
}

/// Whether a history passes through a stage.
pub open spec fn gnu_passes(outcomes: Seq<bool>, stage: GnuStage) -> bool {
    exists|n: int| 0 <= n < outcomes.len() && gnu_stage_after(#[trigger] outcomes.take(n)) == stage
}

spec fn all_true(outcomes: Seq<bool>, count: nat) -> bool {
    outcomes.len() >= count && forall|i: int| 0 <= i < count ==> outcomes[i]
}

proof fn lemma_gnu_history(outcomes: Seq<bool>)
    ensures
        match gnu_stage_after(outcomes) {
            GnuStage::KeepDebug => outcomes.len() == 0,
            GnuStage::Strip => outcomes.len() == 1 && all_true(outcomes, 1),
            GnuStage::AddLink => outcomes.len() == 2 && all_true(outcomes, 2),
            GnuStage::CopyPermissions => outcomes.len() == 3 && all_true(outcomes, 3),
            GnuStage::Replace => outcomes.len() == 4 && all_true(outcomes, 4),
            GnuStage::DropStripped { failed } => 2 <= outcomes.len() <= 5 && (!failed
                ==> outcomes.len() == 5 && all_true(outcomes, 5)),
            GnuStage::DropLinked => 3 <= outcomes.len() <= 6,
            GnuStage::Inspect => outcomes.len() == 6 && all_true(outcomes, 5),
            GnuStage::Done => outcomes.len() >= 7 && all_true(outcomes, 5) && outcomes[6],
            GnuStage::Failed => outcomes.len() >= 1,
        },
    decreases outcomes.len(),
{
    if outcomes.len() > 0 {
        let before = outcomes.drop_last();
        lemma_gnu_history(before);
        assert forall|i: int| 0 <= i < before.len() implies #[trigger] outcomes[i] == before[i] by {
        }
    }
}

/// The binary is replaced only after the symbols were kept, the binary stripped,
/// the link added and the permissions copied, all with success.
pub proof fn gnu_replaces_only_a_complete_binary(outcomes: Seq<bool>)
    requires
        gnu_stage_after(outcomes) == GnuStage::Replace,
    ensures
        outcomes == seq![true, true, true, true],
{
    lemma_gnu_history(outcomes);
    assert(outcomes =~= seq![true, true, true, true]);
}

/// A split is reported only if every step that can fail succeeded, the
/// inspection included.
pub proof fn gnu_done_means_inspected(outcomes: Seq<bool>)
    requires
        gnu_stage_after(outcomes) == GnuStage::Done,
    ensures
        outcomes.len() >= 7,
        outcomes[0] && outcomes[1] && outcomes[2] && outcomes[3] && outcomes[4] && outcomes[6],
{
    lemma_gnu_history(outcomes);
}

/// Whatever fails, the work ends: after eight outcomes nothing is left to do.
pub proof fn gnu_ends(outcomes: Seq<bool>)
    requires
        outcomes.len() >= 8,
    ensures
        gnu_stage_after(outcomes) == GnuStage::Done || gnu_stage_after(outcomes)
            == GnuStage::Failed,
{
    lemma_gnu_history(outcomes);
}

/// Once stripping was tried, the stripped sibling is removed before the work
/// ends, and the linked sibling too where the binary was not replaced.
pub proof fn gnu_cleans_up(outcomes: Seq<bool>)
    requires
        gnu_stage_after(outcomes) == GnuStage::Done || gnu_stage_after(outcomes)
            == GnuStage::Failed,
        outcomes.len() >= 2,
        outcomes[0],
    ensures
        gnu_passes(outcomes, GnuStage::DropStripped { failed: false }) || (gnu_passes(
            outcomes,
            GnuStage::DropStripped { failed: true },
        ) && gnu_passes(outcomes, GnuStage::DropLinked)),
    decreases outcomes.len(),
{
    let before = outcomes.drop_last();
    lemma_gnu_history(outcomes);
    lemma_gnu_history(before);
    assert(outcomes.take(outcomes.len() - 1) =~= before);
    match gnu_stage_after(before) {
        GnuStage::KeepDebug => {
            assert(false);
        },
        GnuStage::DropLinked => {
            lemma_gnu_drop_linked(before);
            lemma_gnu_passes_more(
                before,
                outcomes.last(),
                GnuStage::DropStripped { failed: true },
            );
            assert(before.push(outcomes.last()) =~= outcomes);
            assert(gnu_stage_after(outcomes.take(outcomes.len() - 1)) == GnuStage::DropLinked);
        },
        GnuStage::Inspect => {
            let earlier = before.drop_last();
            lemma_gnu_history(earlier);
            assert(outcomes.take(outcomes.len() - 2) =~= earlier);
            assert(gnu_stage_after(outcomes.take(outcomes.len() - 2)) == GnuStage::DropStripped {
                failed: false,
            });
        },
        GnuStage::Done => {
            gnu_cleans_up(before);
            lemma_gnu_passes_all(before, outcomes.last());
            assert(before.push(outcomes.last()) =~= outcomes);
        },
        GnuStage::Failed => {
            if before.len() >= 2 {
                gnu_cleans_up(before);
                lemma_gnu_passes_all(before, outcomes.last());
                assert(before.push(outcomes.last()) =~= outcomes);
            } else {
                let empty = before.drop_last();
                assert(empty.len() == 0);
                assert(before.last());
            }
        },
        _ => {},
    }
}

proof fn lemma_gnu_drop_linked(outcomes: Seq<bool>)
    requires
        gnu_stage_after(outcomes) == GnuStage::DropLinked,
    ensures
        gnu_passes(outcomes, GnuStage::DropStripped { failed: true }),
{
    let before = outcomes.drop_last();
    lemma_gnu_history(outcomes);
    assert(outcomes.take(outcomes.len() - 1) =~= before);
    assert(gnu_stage_after(outcomes.take(outcomes.len() - 1)) == GnuStage::DropStripped {
        failed: true,
    });
}

proof fn lemma_gnu_passes_more(outcomes: Seq<bool>, next: bool, stage: GnuStage)
    requires
        gnu_passes(outcomes, stage),
    ensures
        gnu_passes(outcomes.push(next), stage),
{
    let n = choose|n: int|
        0 <= n < outcomes.len() && gnu_stage_after(#[trigger] outcomes.take(n)) == stage;
    assert(outcomes.push(next).take(n) =~= outcomes.take(n));
}

proof fn lemma_gnu_passes_all(outcomes: Seq<bool>, next: bool)
    ensures
        gnu_passes(outcomes, GnuStage::DropStripped { failed: false }) ==> gnu_passes(
            outcomes.push(next),
            GnuStage::DropStripped { failed: false },
        ),
        gnu_passes(outcomes, GnuStage::DropStripped { failed: true }) ==> gnu_passes(
            outcomes.push(next),
            GnuStage::DropStripped { failed: true },
        ),
        gnu_passes(outcomes, GnuStage::DropLinked) ==> gnu_passes(
            outcomes.push(next),
            GnuStage::DropLinked,
        ),
{
    if gnu_passes(outcomes, GnuStage::DropStripped { failed: false }) {
        lemma_gnu_passes_more(outcomes, next, GnuStage::DropStripped { failed: false });
    }
    if gnu_passes(outcomes, GnuStage::DropStripped { failed: true }) {
        lemma_gnu_passes_more(outcomes, next, GnuStage::DropStripped { failed: true });
    }
    if gnu_passes(outcomes, GnuStage::DropLinked) {
        lemma_gnu_passes_more(outcomes, next, GnuStage::DropLinked);
    }
}

/// Where a split of a Mach-O binary stands.
#[derive(Clone, Copy, Debug, PartialEq, Eq, Structural)]
pub enum DsymStage {
    Bundle,
    Strip,
    Inspect,
    Done,
    Failed,
}

/// The stage after the action of `stage` was tried: the bundle is made before
/// the binary is stripped of what leads to its debug information.
pub open spec fn dsym_next(stage: DsymStage, succeeded: bool) -> DsymStage {
    match stage {
        DsymStage::Done => DsymStage::Done,
        DsymStage::Bundle if succeeded => DsymStage::Strip,
        DsymStage::Strip if succeeded => DsymStage::Inspect,
        DsymStage::Inspect if succeeded => DsymStage::Done,
        _ => DsymStage::Failed,
    }
}

impl DsymStage {
    pub fn next(self, succeeded: bool) -> (stage: DsymStage)
        ensures
            stage == dsym_next(self, succeeded),
    {
        match self {
            DsymStage::Done => DsymStage::Done,
            DsymStage::Bundle if succeeded => DsymStage::Strip,
            DsymStage::Strip if succeeded => DsymStage::Inspect,
            DsymStage::Inspect if succeeded => DsymStage::Done,
            _ => DsymStage::Failed,
        }
    }
}

/// The stage that a history of outcomes leads to.
pub open spec fn dsym_stage_after(outcomes: Seq<bool>) -> DsymStage
    decreases outcomes.len(),
{
    if outcomes.len() == 0 {
        DsymStage::Bundle
    } else {
        dsym_next(dsym_stage_after(outcomes.drop_last()), outcomes.last())
    }
}

proof fn lemma_dsym_history(outcomes: Seq<bool>)
    ensures
        match dsym_stage_after(outcomes) {
            DsymStage::Bundle => outcomes.len() == 0,
            DsymStage::Strip => outcomes.len() == 1 && all_true(outcomes, 1),
            DsymStage::Inspect => outcomes.len() == 2 && all_true(outcomes, 2),
            DsymStage::Done => outcomes.len() >= 3 && all_true(outcomes, 3),
            DsymStage::Failed => outcomes.len() >= 1,
        },
    decreases outcomes.len(),
{
    if outcomes.len() > 0 {
        let before = outcomes.drop_last();
        lemma_dsym_history(before);
        assert forall|i: int| 0 <= i < before.len() implies #[trigger] outcomes[i] == before[i] by {
        }
    }
}

/// The binary is stripped only after its bundle was made, and a split is reported only
/// after both and the inspection succeeded.
pub proof fn dsym_strips_only_after_bundling(outcomes: Seq<bool>)
    ensures
        dsym_stage_after(outcomes) == DsymStage::Strip ==> outcomes == seq![true],
        dsym_stage_after(outcomes) == DsymStage::Done ==> outcomes.len() >= 3 && outcomes[0]
            && outcomes[1] && outcomes[2],
{
    lemma_dsym_history(outcomes);
    if dsym_stage_after(outcomes) == DsymStage::Strip {
        assert(outcomes =~= seq![true]);
    }
}

/// The files and tools of a split of a Mach-O binary.
#[derive(Clone, Debug)]
pub struct DsymPlan {
    pub binary: String,
    pub bundle: String,
    pub directory: String,
    pub dsymutil: String,
    pub strip: String,
}

impl DsymPlan {
    /// A plan for `binary`, with its bundle beside it unless asked otherwise.
    pub fn new(binary: String, requested: Option<String>, dsymutil: String, strip: String) -> (plan:
        Self)
        ensures
            plan.binary@ == binary@,
            plan.bundle@ == match requested {
                Some(path) => path@,
                None => binary@ + ".dSYM"@,
            },
            plan.directory@ == directory_of(binary@),
            plan.dsymutil@ == dsymutil@,
            plan.strip@ == strip@,
    {
        let bundle = match requested {
            Some(path) => path,
            None => join2(binary.as_str(), ".dSYM"),
        };
        DsymPlan {
            bundle,
            directory: parent_directory(binary.as_str()),
            binary,
            dsymutil,
            strip,
        }
    }

    /// What to do at a stage.
    pub fn action(&self, stage: DsymStage) -> (action: SplitAction)
        ensures
            match stage {
                DsymStage::Bundle => action.is_run(
                    self.dsymutil@,
                    seq![self.binary@, "-o"@, self.bundle@],
                ),
                DsymStage::Strip => action.is_run(self.strip@, seq!["-x"@, self.binary@]),
                DsymStage::Inspect => action is Inspect,
                DsymStage::Done => action is Done,
                DsymStage::Failed => action is Fail,
            },
    {
        match stage {
            DsymStage::Bundle => {
                let mut arguments: Vec<String> = Vec::new();
                arguments.push(self.binary.clone());
                arguments.push("-o".to_owned());
                arguments.push(self.bundle.clone());
                assert(texts(arguments@) =~= seq![self.binary@, "-o"@, self.bundle@]);
                SplitAction::Run { program: self.dsymutil.clone(), arguments }
            },
            DsymStage::Strip => {
                let mut arguments: Vec<String> = Vec::new();
                arguments.push("-x".to_owned());
                arguments.push(self.binary.clone());
                assert(texts(arguments@) =~= seq!["-x"@, self.binary@]);
                SplitAction::Run { program: self.strip.clone(), arguments }
            },
            DsymStage::Inspect => SplitAction::Inspect,
            DsymStage::Done => SplitAction::Done,
            DsymStage::Failed => SplitAction::Fail,
        }
    }

    /// The pair that the plan leads to.
    pub fn into_split(self, identity: String) -> (split: DebugSplit)
        ensures
            split.spec_binary() == self.binary@,
            split.spec_symbol_file() == self.bundle@,
            split.spec_mechanism() == SplitMechanism::DsymBundle,
            split.spec_identity() == identity@,
    {
        DebugSplit::assemble(self.binary, self.bundle, SplitMechanism::DsymBundle, identity)
    }
}

/// A split whose steps all succeed is done, in the order that it must go: the debug information
/// is kept before the binary is stripped, the link added before it takes the binary's place.
pub proof fn gnu_succeeds_step_by_step(outcomes: Seq<bool>)
    requires
        forall|i: int| 0 <= i < outcomes.len() ==> outcomes[i],
    ensures
        outcomes.len() == 0 ==> gnu_stage_after(outcomes) == GnuStage::KeepDebug,
        outcomes.len() == 1 ==> gnu_stage_after(outcomes) == GnuStage::Strip,
        outcomes.len() == 2 ==> gnu_stage_after(outcomes) == GnuStage::AddLink,
        outcomes.len() == 3 ==> gnu_stage_after(outcomes) == GnuStage::CopyPermissions,
        outcomes.len() == 4 ==> gnu_stage_after(outcomes) == GnuStage::Replace,
        outcomes.len() == 5 ==> gnu_stage_after(outcomes) == (GnuStage::DropStripped {
            failed: false,
        }),
        outcomes.len() == 6 ==> gnu_stage_after(outcomes) == GnuStage::Inspect,
        outcomes.len() >= 7 ==> gnu_stage_after(outcomes) == GnuStage::Done,
    decreases outcomes.len(),
{
    if outcomes.len() > 0 {
        gnu_succeeds_step_by_step(outcomes.drop_last());
    }
}

/// The same of a bundle.
pub proof fn dsym_succeeds_step_by_step(outcomes: Seq<bool>)
    ensures
        dsym_stage_after(outcomes) == DsymStage::Failed <==> exists|i: int|
            0 <= i < outcomes.len() && i < 3 && !outcomes[i],
        (forall|i: int| 0 <= i < outcomes.len() && i < 3 ==> outcomes[i]) ==> dsym_stage_after(
            outcomes,
        ) == if outcomes.len() == 0 {
            DsymStage::Bundle
        } else if outcomes.len() == 1 {
            DsymStage::Strip
        } else if outcomes.len() == 2 {
            DsymStage::Inspect
        } else {
            DsymStage::Done
        },
    decreases outcomes.len(),
{
    if outcomes.len() > 0 {
        let less = outcomes.drop_last();
        dsym_succeeds_step_by_step(less);
        assert forall|i: int| 0 <= i < less.len() implies less[i] == outcomes[i] by {}
        assert(outcomes.last() == outcomes[outcomes.len() - 1]);
    }
}

/// Each step of a split takes up where the one before it ended: what was stripped gets the link,
/// what got the link gets the permissions and then the binary's place, and what is cleaned up is
/// what the split itself made.
pub proof fn gnu_steps_hand_on_their_files(
    plan: &GnuPlan,
    kept: SplitAction,
    stripped: SplitAction,
    linked: SplitAction,
    copied: SplitAction,
    replaced: SplitAction,
    dropped: SplitAction,
    cleaned: SplitAction,
    failed: bool,
)
    requires
        call_ensures(GnuPlan::action, (plan, GnuStage::KeepDebug), kept),
        call_ensures(GnuPlan::action, (plan, GnuStage::Strip), stripped),
        call_ensures(GnuPlan::action, (plan, GnuStage::AddLink), linked),
        call_ensures(GnuPlan::action, (plan, GnuStage::CopyPermissions), copied),
        call_ensures(GnuPlan::action, (plan, GnuStage::Replace), replaced),
        call_ensures(GnuPlan::action, (plan, GnuStage::DropStripped { failed }), dropped),
        call_ensures(GnuPlan::action, (plan, GnuStage::DropLinked), cleaned),
    ensures
        match (kept, stripped, linked, copied, replaced, dropped, cleaned) {
            (
                SplitAction::Run { program: first, arguments: keep },
                SplitAction::Run { program: second, arguments: strip },
                SplitAction::Run { program: third, arguments: link },
                SplitAction::CopyPermissions { from: model, to: ready },
                SplitAction::Rename { from: fresh, to: place },
                SplitAction::Remove { path: bare },
                SplitAction::Remove { path: left },
            ) => {
                &&& first@ == third@
                &&& keep@.len() == 3 && strip@.len() == 4 && link@.len() == 3
                &&& keep@[1]@ == plan.binary@ && keep@[2]@ == plan.symbol_file@
                &&& strip@[3]@ == plan.binary@
                &&& strip@[2]@ == link@[1]@
                &&& link@[2]@ == fresh@
                &&& ready@ == fresh@
                &&& model@ == place@
                &&& place@ == plan.binary@
                &&& bare@ == strip@[2]@
                &&& left@ == link@[2]@
            },
            _ => false,
        },
{
    if let (
        SplitAction::Run { program: first, arguments: keep },
        SplitAction::Run { program: second, arguments: strip },
        SplitAction::Run { program: third, arguments: link },
    ) = (kept, stripped, linked) {
        assert(texts(keep@).len() == keep@.len());
        assert(texts(strip@).len() == strip@.len());
        assert(texts(link@).len() == link@.len());
        assert(texts(keep@)[1] == keep@[1]@ && texts(keep@)[2] == keep@[2]@);
        assert(texts(strip@)[2] == strip@[2]@ && texts(strip@)[3] == strip@[3]@);
        assert(texts(link@)[1] == link@[1]@ && texts(link@)[2] == link@[2]@);
    }
}

/// A plan keeps to the binary's own directory: its own files are named after the binary, each
/// differently.
pub proof fn planned_files_are_named_after_the_binary(
    binary: String,
    requested: Option<String>,
    objcopy: String,
    strip: String,
    plan: GnuPlan,
)
    requires
        call_ensures(GnuPlan::new, (binary, requested, objcopy, strip), plan),
    ensures
        plan.binary@ == binary@,
        plan.stripped@.len() > binary@.len() && plan.stripped@.take(binary@.len() as int) == binary@,
        plan.linked@.len() > binary@.len() && plan.linked@.take(binary@.len() as int) == binary@,
        plan.stripped@ != plan.linked@,
        requested is Some ==> plan.symbol_file@ == requested->Some_0@,
        requested is None ==> plan.symbol_file@ == binary@ + ".debug"@,
{
    reveal_strlit(".kernal-split-stripped");
    reveal_strlit(".kernal-split-linked");
    let first = ".kernal-split-stripped"@;
    let second = ".kernal-split-linked"@;
    assert(first.len() == 22 && second.len() == 20);
    assert((binary@ + first).take(binary@.len() as int) =~= binary@);
    assert((binary@ + second).take(binary@.len() as int) =~= binary@);
    assert(plan.stripped@.len() == binary@.len() + 22 && plan.linked@.len() == binary@.len() + 20);
}

} // verus!
