//! Bringing a cell into residence: where its database comes from, and when an
//! activation must be refused.
//!
//! An [`Activation`] is asked what to do next ([`Activation::stage`]) and told
//! how it went. Its stages follow each other in one order only, so a stranded
//! tail is folded before a source is looked up, and nothing is opened before
//! its source has been checked.

use vstd::prelude::*;
use crate::branch::cell_branch;
use crate::branch::cell_branch::ValidatedParentBucket;
use crate::ltx::base;
use crate::ltx::base::BasePointer;
use crate::repl::registry;
use crate::text;

verus! {

/// What is asked for.
#[derive(Debug)]
pub struct ActivationOptions {
    pub cell: String,
    pub epoch: u64,
    /// The cell has no history.
    pub fresh: bool,
    /// The live database of this very epoch is to be opened again.
    pub resume_local: bool,
    /// A snapshot that the previous epoch left on this node may be used.
    pub previous_reusable: bool,
}

/// Where the database of an activation comes from.
#[derive(Clone, Copy, Debug, PartialEq, Eq, Structural)]
pub enum Origin {
    /// From nowhere: it starts empty.
    Fresh,
    /// It was left in place by a clean reload.
    Resumed,
    /// It is the previous epoch's snapshot, under its present or its old name.
    Reused { legacy: bool },
    /// It was restored from a parent's log and the cell's own log of an epoch.
    Branched { from: u64 },
    /// It was restored from the cell's own log of an epoch.
    Restored { from: u64 },
}

/// What an activation does next.
#[derive(Clone, Copy, Debug, PartialEq, Eq, Structural)]
pub enum Stage {
    /// Make the directory of the database.
    MakeDirectory,
    /// Is the live database of this epoch there?
    FindResumed,
    /// Is the previous epoch's snapshot there, under this name?
    FindSnapshot { legacy: bool },
    /// Move that snapshot to the live path.
    MoveSnapshot { legacy: bool },
    /// Fold the cell's stranded tail into its own prefix.
    FoldTail,
    /// Look for the newest epoch that has any log.
    FindSource,
    /// Read the base pointer of that epoch.
    ReadBase { from: u64 },
    /// Look for the parent's newest epoch.
    FindParentEpoch { from: u64 },
    /// Read the last file of the parent's log at the fork.
    ReadTerminal { from: u64, parent_epoch: u64 },
    /// Restore through the parent's log and the cell's own.
    RestoreBranched { from: u64, parent_epoch: u64 },
    /// Does the epoch's log start at the first transaction?
    FindAnchor { from: u64 },
    /// Restore from the epoch's log.
    Restore { from: u64 },
    /// Does the epoch have any object at all?
    FindObjects { from: u64 },
    /// Open the database.
    Open(Origin),
}

/// The fork that a branched database continues from.
#[derive(Clone, Copy, Debug, PartialEq, Eq, Structural)]
pub struct Baseline {
    pub fork_txid: u64,
    pub checksum: u64,
}

/// Why an activation failed.
#[derive(Debug)]
pub enum ActivateError {
    /// There is no live database to resume.
    ReloadMissing,
    /// There is a stranded tail and nothing to fold it with.
    NoBundleSink,
    /// The newest log is not older than the epoch to write.
    UsedEpoch(u64),
    /// The base pointer names another cell; in quotes, which one.
    ParentCell(String),
    /// The parent has no log.
    NoParentEpoch,
    /// The parent's log has no file at the fork.
    NoTerminal,
    /// The parent's last file is not what the fork was taken from.
    ForkChecksum,
    /// The last file or the recorded checksum cannot be read.
    Checksum(base::Error),
    /// There are objects, but no log that could be restored.
    NoAnchor(u64),
    /// The folding of the tail failed.
    Fold(String),
    /// The parent's last file could not be read.
    Terminal(String),
    /// A restore through the parent failed.
    RestoreBranched(u64, String),
    /// A restore failed.
    Restore(u64, String),
    /// The database could not be opened.
    Open(String),
    /// Something else that the outside said.
    Outside(String),
}

/// An activation on its way.
#[derive(Debug)]
pub struct Activation {
    pub options: ActivationOptions,
    pub stage: Stage,
    /// The tail was found stranded.
    pub dirty: bool,
    /// The tail was folded.
    pub folded: bool,
    pub base: Option<BasePointer>,
    pub parent: Option<ValidatedParentBucket>,
    pub baseline: Option<Baseline>,
}

/// The epoch that a stage restores from, if it does.
pub open spec fn source_of(stage: Stage) -> Option<u64> {
    match stage {
        Stage::ReadBase { from } => Some(from),
        Stage::FindParentEpoch { from } => Some(from),
        Stage::ReadTerminal { from, .. } => Some(from),
        Stage::RestoreBranched { from, .. } => Some(from),
        Stage::FindAnchor { from } => Some(from),
        Stage::Restore { from } => Some(from),
        Stage::FindObjects { from } => Some(from),
        Stage::Open(Origin::Branched { from }) => Some(from),
        Stage::Open(Origin::Restored { from }) => Some(from),
        _ => None,
    }
}

/// Does a stage deal with a branched source?
pub open spec fn through_parent(stage: Stage) -> bool {
    stage is FindParentEpoch || stage is ReadTerminal || stage is RestoreBranched || stage == Stage::Open(
        Origin::Branched { from: source_of(stage)->0 },
    )
}

impl Activation {
    /// What holds at every stage.
    pub open spec fn wf(self) -> bool {
        // A source is older than the epoch to write, and is looked for only by
        // an activation that needs one, with no stranded tail left.
        &&& source_of(self.stage) matches Some(from) ==> from < self.options.epoch
        &&& source_of(self.stage) is Some || self.stage is FindSource ==> !self.options.fresh
            && !self.options.resume_local && (self.dirty ==> self.folded)
        &&& self.stage is FoldTail ==> !self.options.fresh && !self.options.resume_local
            && self.dirty && !self.folded
        &&& self.stage is FindSnapshot || self.stage is MoveSnapshot ==> !self.options.fresh
            && !self.options.resume_local && self.options.previous_reusable
        &&& self.stage is FindResumed ==> self.options.resume_local
        // A branched source has its pointer and its parent.
        &&& through_parent(self.stage) ==> {
            &&& self.base matches Some(pointer) && pointer.parent_cell@ == self.options.cell@
            &&& self.parent is Some
        }
        // A baseline belongs to a branched database, and none lacks it.
        &&& self.baseline is Some <==> self.stage is RestoreBranched || self.stage == Stage::Open(
            Origin::Branched { from: source_of(self.stage)->0 },
        )
        &&& self.baseline matches Some(baseline) ==> self.base matches Some(pointer)
            && pointer.fork_txid == baseline.fork_txid && base::is_checksum(pointer.fork_checksum@)
            && base::hex_value(base::checksum_digits(pointer.fork_checksum@))
            == baseline.checksum as nat
        &&& self.stage matches Stage::Open(origin) ==> match origin {
            Origin::Resumed => self.options.resume_local,
            Origin::Reused { .. } => !self.options.fresh && !self.options.resume_local
                && self.options.previous_reusable,
            Origin::Fresh => !self.options.resume_local,
            _ => true,
        }
    }

    /// Does everything but the stage stand as it did before?
    pub open spec fn keeps(self, before: Self) -> bool {
        &&& self.keeps_source(before)
        &&& self.dirty == before.dirty
        &&& self.folded == before.folded
    }

    /// Does everything but the stage and the tail stand as it did before?
    pub open spec fn keeps_source(self, before: Self) -> bool {
        &&& self.options == before.options
        &&& self.base == before.base
        &&& self.parent == before.parent
        &&& self.baseline == before.baseline
    }

    /// Begin an activation that was admitted.
    pub fn begin(options: ActivationOptions) -> (activation: Self)
        ensures
            activation.wf(),
            activation.options == options,
            activation.stage == Stage::MakeDirectory,
            !activation.dirty,
            !activation.folded,
            activation.base is None,
            activation.parent is None,
            activation.baseline is None,
    {
        Activation {
            options,
            stage: Stage::MakeDirectory,
            dirty: false,
            folded: false,
            base: None,
            parent: None,
            baseline: None,
        }
    }

    /// The stage at which the search for a remote source begins.
    pub open spec fn remote_start(dirty: bool) -> Stage {
        if dirty {
            Stage::FoldTail
        } else {
            Stage::FindSource
        }
    }

    fn begin_remote(&mut self, dirty: bool, has_sink: bool) -> (begun: Result<(), ActivateError>)
        requires
            !old(self).options.fresh,
            !old(self).options.resume_local,
            !old(self).dirty,
            !old(self).folded,
            old(self).baseline is None,
        ensures
            final(self).keeps_source(*old(self)),
            !final(self).folded,
            final(self).dirty == dirty,
            begun is Err <==> dirty && !has_sink,
            begun is Err ==> final(self).stage == old(self).stage,
            begun matches Err(error) ==> error is NoBundleSink,
            begun is Ok ==> final(self).stage == Self::remote_start(dirty) && final(self).wf(),
    {
        self.dirty = dirty;
        if dirty {
            if !has_sink {
                return Err(ActivateError::NoBundleSink);
            }
            self.stage = Stage::FoldTail;
        } else {
            self.stage = Stage::FindSource;
        }
        Ok(())
    }

    /// The directory is there. `dirty` says whether the cell has a stranded
    /// tail, `has_sink` whether there is anything to fold it with.
    pub fn directory_made(&mut self, dirty: bool, has_sink: bool) -> (next: Result<
        (),
        ActivateError,
    >)
        requires
            old(self).wf(),
            old(self).stage is MakeDirectory,
            !old(self).dirty,
            !old(self).folded,
        ensures
            final(self).keeps_source(*old(self)),
            !final(self).folded,
            next is Err ==> final(self).stage == old(self).stage,
            next is Ok ==> final(self).wf(),
            ({
                let options = old(self).options;
                if options.resume_local {
                    next is Ok && final(self).stage == Stage::FindResumed && !final(self).dirty
                } else if options.fresh {
                    next is Ok && final(self).stage == Stage::Open(Origin::Fresh) && !final(self).dirty
                } else if options.previous_reusable {
                    next is Ok && final(self).stage == (Stage::FindSnapshot { legacy: false })
                        && !final(self).dirty
                } else if dirty && !has_sink {
                    (next matches Err(error) && error is NoBundleSink) && final(self).dirty
                } else {
                    next is Ok && final(self).stage == Self::remote_start(dirty) && final(
                        self).dirty == dirty
                }
            }),
    {
        if self.options.resume_local {
            self.stage = Stage::FindResumed;
            Ok(())
        } else if self.options.fresh {
            self.stage = Stage::Open(Origin::Fresh);
            Ok(())
        } else if self.options.previous_reusable {
            self.stage = Stage::FindSnapshot { legacy: false };
            Ok(())
        } else {
            self.begin_remote(dirty, has_sink)
        }
    }

    /// The live database to resume was looked for.
    pub fn resumed_found(&mut self, found: bool) -> (next: Result<(), ActivateError>)
        requires
            old(self).wf(),
            old(self).stage is FindResumed,
        ensures
            final(self).keeps(*old(self)),
            next is Err ==> final(self).stage == old(self).stage,
            next is Ok <==> found,
            next is Ok ==> final(self).wf() && final(self).stage == Stage::Open(Origin::Resumed),
            next matches Err(error) ==> error is ReloadMissing,
    {
        if !found {
            return Err(ActivateError::ReloadMissing);
        }
        self.stage = Stage::Open(Origin::Resumed);
        Ok(())
    }

    /// A snapshot of the previous epoch was looked for. Its present name comes
    /// first; without a snapshot under either name the source is remote.
    pub fn snapshot_found(&mut self, found: bool, dirty: bool, has_sink: bool) -> (next: Result<
        (),
        ActivateError,
    >)
        requires
            old(self).wf(),
            old(self).stage is FindSnapshot,
            !old(self).dirty,
            !old(self).folded,
        ensures
            final(self).keeps_source(*old(self)),
            !final(self).folded,
            next is Err ==> final(self).stage == old(self).stage,
            next is Ok ==> final(self).wf(),
            ({
                let legacy = old(self).stage->FindSnapshot_legacy;
                if found {
                    next is Ok && final(self).stage == (Stage::MoveSnapshot { legacy })
                        && !final(self).dirty
                } else if !legacy {
                    next is Ok && final(self).stage == (Stage::FindSnapshot { legacy: true })
                        && !final(self).dirty
                } else if dirty && !has_sink {
                    (next matches Err(error) && error is NoBundleSink) && final(self).dirty
                } else {
                    next is Ok && final(self).stage == Self::remote_start(dirty) && final(
                        self).dirty == dirty
                }
            }),
    {
        let legacy = match self.stage {
            Stage::FindSnapshot { legacy } => legacy,
            _ => true,
        };
        if found {
            self.stage = Stage::MoveSnapshot { legacy };
            Ok(())
        } else if !legacy {
            self.stage = Stage::FindSnapshot { legacy: true };
            Ok(())
        } else {
            self.begin_remote(dirty, has_sink)
        }
    }

    /// The snapshot stands at the live path.
    pub fn snapshot_moved(&mut self)
        requires
            old(self).wf(),
            old(self).stage is MoveSnapshot,
        ensures
            final(self).wf(),
            final(self).keeps(*old(self)),
            final(self).stage == Stage::Open(
                Origin::Reused { legacy: old(self).stage->MoveSnapshot_legacy },
            ),
    {
        if let Stage::MoveSnapshot { legacy } = self.stage {
            self.stage = Stage::Open(Origin::Reused { legacy });
        }
    }

    /// The stranded tail stands in the cell's own prefix.
    pub fn tail_folded(&mut self)
        requires
            old(self).wf(),
            old(self).stage is FoldTail,
        ensures
            final(self).wf(),
            final(self).keeps_source(*old(self)),
            final(self).dirty,
            final(self).stage == Stage::FindSource,
            final(self).folded,
    {
        self.folded = true;
        self.stage = Stage::FindSource;
    }

    /// The newest epoch with any log was looked for. One that is not older
    /// than the epoch to write has been used by another writer.
    pub fn source_found(&mut self, source: Option<u64>) -> (next: Result<(), ActivateError>)
        requires
            old(self).wf(),
            old(self).stage is FindSource,
        ensures
            final(self).keeps(*old(self)),
            next is Err ==> final(self).stage == old(self).stage,
            next is Ok ==> final(self).wf(),
            match source {
                None => next is Ok && final(self).stage == Stage::Open(Origin::Fresh),
                Some(from) => if from < old(self).options.epoch {
                    next is Ok && final(self).stage == (Stage::ReadBase { from })
                } else {
                    next matches Err(error) && error == ActivateError::UsedEpoch(from)
                },
            },
    {
        match source {
            None => {
                self.stage = Stage::Open(Origin::Fresh);
            },
            Some(from) => {
                if from >= self.options.epoch {
                    return Err(ActivateError::UsedEpoch(from));
                }
                self.stage = Stage::ReadBase { from };
            },
        }
        Ok(())
    }

    /// The base pointer of the source was read, if it has one, and with it the
    /// node's project.
    pub fn base_read(&mut self, pointer: Option<BasePointer>, project_id: Result<String, String>) -> (
    next: Result<(), ActivateError>)
        requires
            old(self).wf(),
            old(self).stage is ReadBase,
        ensures
            final(self).options == old(self).options,
            final(self).dirty == old(self).dirty,
            final(self).folded == old(self).folded,
            final(self).baseline == old(self).baseline,
            next is Err ==> *final(self) == *old(self),
            next is Ok ==> final(self).wf(),
            ({
                let from = old(self).stage->ReadBase_from;
                match pointer {
                    None => next is Ok && final(self).keeps(*old(self)) && final(self).stage
                        == (Stage::FindAnchor { from }),
                    Some(pointer) => if pointer.parent_cell@ != old(self).options.cell@ {
                        next matches Err(error) && (error matches ActivateError::ParentCell(quoted)
                            && quoted@ == text::debug_quoted(pointer.parent_cell@))
                    } else {
                        match parent_refusal(pointer, project_id) {
                            Some(message) => next matches Err(error) && (error
                                matches ActivateError::Outside(told) && told@ == message),
                            None => {
                                &&& next is Ok
                                &&& final(self).base == Some(pointer)
                                &&& final(self).parent matches Some(parent)
                                    && cell_branch::parent_at(parent, pointer.parent_bucket@)
                                &&& final(self).stage == if pointer.parent_epoch > 0 {
                                    Stage::ReadTerminal { from, parent_epoch: pointer.parent_epoch }
                                } else {
                                    Stage::FindParentEpoch { from }
                                }
                            },
                        }
                    },
                }
            }),
    {
        let from: u64 = match self.stage {
            Stage::ReadBase { from } => from,
            _ => 0,
        };
        match pointer {
            None => {
                self.stage = Stage::FindAnchor { from };
                Ok(())
            },
            Some(pointer) => {
                if !text::same(pointer.parent_cell.as_str(), self.options.cell.as_str()) {
                    let quoted = text::debug_text(pointer.parent_cell.as_str());
                    return Err(ActivateError::ParentCell(quoted));
                }
                let project_id = match project_id {
                    Ok(project_id) => project_id,
                    Err(message) => return Err(ActivateError::Outside(message)),
                };
                let parent = match cell_branch::validate_parent_bucket(
                    pointer.parent_bucket.as_str(),
                    project_id.as_str(),
                ) {
                    Ok(parent) => parent,
                    Err(message) => return Err(ActivateError::Outside(message)),
                };
                let parent_epoch = pointer.parent_epoch;
                self.base = Some(pointer);
                self.parent = Some(parent);
                if parent_epoch > 0 {
                    self.stage = Stage::ReadTerminal { from, parent_epoch };
                } else {
                    self.stage = Stage::FindParentEpoch { from };
                }
                Ok(())
            },
        }
    }

    /// The parent's newest epoch was looked for.
    pub fn parent_epoch_found(&mut self, found: Option<u64>) -> (next: Result<(), ActivateError>)
        requires
            old(self).wf(),
            old(self).stage is FindParentEpoch,
        ensures
            final(self).keeps(*old(self)),
            next is Err ==> final(self).stage == old(self).stage,
            next is Ok ==> final(self).wf(),
            match found {
                None => next matches Err(error) && error is NoParentEpoch,
                Some(parent_epoch) => next is Ok && final(self).stage == (Stage::ReadTerminal {
                    from: old(self).stage->FindParentEpoch_from,
                    parent_epoch,
                }),
            },
    {
        match found {
            None => Err(ActivateError::NoParentEpoch),
            Some(parent_epoch) => {
                if let Stage::FindParentEpoch { from } = self.stage {
                    self.stage = Stage::ReadTerminal { from, parent_epoch };
                }
                Ok(())
            },
        }
    }

    /// The last file of the parent's log at the fork was read; there may be
    /// none. Its checksum must be the one that the fork was taken with.
    pub fn terminal_read(&mut self, terminal: Option<Vec<u8>>) -> (next: Result<(), ActivateError>)
        requires
            old(self).wf(),
            old(self).stage is ReadTerminal,
        ensures
            final(self).options == old(self).options,
            final(self).base == old(self).base,
            final(self).parent == old(self).parent,
            final(self).dirty == old(self).dirty,
            final(self).folded == old(self).folded,
            next is Err ==> *final(self) == *old(self),
            next is Ok ==> final(self).wf(),
            ({
                let from = old(self).stage->ReadTerminal_from;
                let parent_epoch = old(self).stage->ReadTerminal_parent_epoch;
                let pointer = old(self).base->0;
                match terminal {
                    None => next matches Err(error) && error is NoTerminal,
                    Some(bytes) => match fork_check(bytes@, pointer.fork_checksum@) {
                        ForkCheck::CutShort => next matches Err(error) && error
                            == ActivateError::Checksum(base::Error::LTXCorrupted),
                        ForkCheck::Misspelt => next matches Err(error) && (error
                            matches ActivateError::Checksum(why) && (why
                            matches base::Error::Other(message) && message@ == base::bad_checksum(
                            text::debug_quoted(base::checksum_digits(pointer.fork_checksum@)),
                        ))),
                        ForkCheck::Different => next matches Err(error) && error is ForkChecksum,
                        ForkCheck::Same(checksum) => {
                            &&& next is Ok
                            &&& final(self).stage == (Stage::RestoreBranched { from, parent_epoch })
                            &&& final(self).baseline matches Some(baseline) && baseline.fork_txid
                                == pointer.fork_txid && baseline.checksum as nat == checksum
                        },
                    },
                }
            }),
    {
        let bytes = match terminal {
            Some(bytes) => bytes,
            None => return Err(ActivateError::NoTerminal),
        };
        let (from, parent_epoch): (u64, u64) = match self.stage {
            Stage::ReadTerminal { from, parent_epoch } => (from, parent_epoch),
            _ => (0, 0),
        };
        let (fork_txid, recorded): (u64, Result<u64, base::Error>) = match &self.base {
            Some(pointer) => (pointer.fork_txid, pointer.fork_checksum_value()),
            None => return Err(ActivateError::NoTerminal),
        };
        let checksum = match base::post_apply_checksum_from_ltx(bytes.as_slice()) {
            Ok(checksum) => checksum,
            Err(error) => return Err(ActivateError::Checksum(error)),
        };
        let recorded = match recorded {
            Ok(recorded) => recorded,
            Err(error) => return Err(ActivateError::Checksum(error)),
        };
        if checksum != recorded {
            return Err(ActivateError::ForkChecksum);
        }
        self.baseline = Some(Baseline { fork_txid, checksum });
        self.stage = Stage::RestoreBranched { from, parent_epoch };
        Ok(())
    }

    /// The database was restored.
    pub fn restore_done(&mut self)
        requires
            old(self).wf(),
            old(self).stage is RestoreBranched || old(self).stage is Restore,
        ensures
            final(self).wf(),
            final(self).keeps(*old(self)),
            final(self).stage == match old(self).stage {
                Stage::RestoreBranched { from, .. } => Stage::Open(Origin::Branched { from }),
                _ => Stage::Open(Origin::Restored { from: old(self).stage->Restore_from }),
            },
    {
        match self.stage {
            Stage::RestoreBranched { from, .. } => {
                self.stage = Stage::Open(Origin::Branched { from });
            },
            Stage::Restore { from } => {
                self.stage = Stage::Open(Origin::Restored { from });
            },
            _ => {},
        }
    }

    /// A log that starts at the first transaction was looked for.
    pub fn anchor_found(&mut self, found: bool)
        requires
            old(self).wf(),
            old(self).stage is FindAnchor,
        ensures
            final(self).wf(),
            final(self).keeps(*old(self)),
            final(self).stage == if found {
                Stage::Restore { from: old(self).stage->FindAnchor_from }
            } else {
                Stage::FindObjects { from: old(self).stage->FindAnchor_from }
            },
    {
        if let Stage::FindAnchor { from } = self.stage {
            self.stage = if found {
                Stage::Restore { from }
            } else {
                Stage::FindObjects { from }
            };
        }
    }

    /// Any object at all was looked for. State that is there but cannot be
    /// restored is never started over.
    pub fn objects_found(&mut self, found: bool) -> (next: Result<(), ActivateError>)
        requires
            old(self).wf(),
            old(self).stage is FindObjects,
        ensures
            final(self).keeps(*old(self)),
            next is Err ==> final(self).stage == old(self).stage,
            next is Ok <==> !found,
            next is Ok ==> final(self).wf() && final(self).stage == Stage::Open(Origin::Fresh),
            next matches Err(error) ==> error == ActivateError::NoAnchor(
                old(self).stage->FindObjects_from,
            ),
    {
        if found {
            let from: u64 = match self.stage {
                Stage::FindObjects { from } => from,
                _ => 0,
            };
            return Err(ActivateError::NoAnchor(from));
        }
        self.stage = Stage::Open(Origin::Fresh);
        Ok(())
    }

    /// What the outside failing at this stage means.
    pub fn failed(&self, error: String) -> (told: ActivateError)
        ensures
            told == match self.stage {
                Stage::FoldTail => ActivateError::Fold(error),
                Stage::ReadTerminal { .. } => ActivateError::Terminal(error),
                Stage::RestoreBranched { from, .. } => ActivateError::RestoreBranched(from, error),
                Stage::Restore { from } => ActivateError::Restore(from, error),
                Stage::Open(_) => ActivateError::Open(error),
                _ => ActivateError::Outside(error),
            },
    {
        match self.stage {
            Stage::FoldTail => ActivateError::Fold(error),
            Stage::ReadTerminal { .. } => ActivateError::Terminal(error),
            Stage::RestoreBranched { from, .. } => ActivateError::RestoreBranched(from, error),
            Stage::Restore { from } => ActivateError::Restore(from, error),
            Stage::Open(_) => ActivateError::Open(error),
            _ => ActivateError::Outside(error),
        }
    }

    /// Does the opened database hold what the cell had before?
    pub fn restored(&self) -> (restored: bool)
        requires
            self.stage is Open,
        ensures
            restored == !(self.stage->Open_0 is Fresh),
    {
        match self.stage {
            Stage::Open(Origin::Fresh) => false,
            _ => true,
        }
    }
}

/// What keeps a base pointer's parent from being used.
pub open spec fn parent_refusal(
    pointer: BasePointer,
    project_id: Result<String, String>,
) -> Option<Seq<char>> {
    match project_id {
        Err(message) => Some(message@),
        Ok(project_id) => match cell_branch::parent_parts(pointer.parent_bucket@) {
            None => Some(cell_branch::bad_address()),
            Some((_, project, _)) => if project == project_id@ {
                None
            } else {
                Some(cell_branch::other_project(project, project_id@))
            },
        },
    }
}

/// How a parent's last file stands to the recorded checksum.
pub enum ForkCheck {
    /// The file has no checksum.
    CutShort,
    /// The recorded checksum is none.
    Misspelt,
    Different,
    Same(nat),
}

/// How a parent's last file stands to the recorded checksum.
pub open spec fn fork_check(terminal: Seq<u8>, recorded: Seq<char>) -> ForkCheck {
    if terminal.len() < 16 {
        ForkCheck::CutShort
    } else if !base::is_checksum(recorded) {
        ForkCheck::Misspelt
    } else {
        let checksum = base::big_endian(terminal.subrange(terminal.len() - 16, terminal.len() - 8));
        if checksum == base::hex_value(base::checksum_digits(recorded)) {
            ForkCheck::Same(checksum)
        } else {
            ForkCheck::Different
        }
    }
}

/// `cell`, then `epoch`, as the messages name them.
pub open spec fn cell_at_epoch(cell: Seq<char>, epoch: u64) -> Seq<char> {
    cell + " epoch "@ + text::dec(epoch as nat)
}

/// The message for a path that an earlier close still holds.
pub open spec fn close_incomplete(cell: Seq<char>, epoch: u64) -> Seq<char> {
    "managed replica close is incomplete for "@ + cell_at_epoch(cell, epoch)
}

/// Append `cell`, then `epoch`, as the messages name them.
pub(crate) fn push_cell_at_epoch(message: &mut String, cell: &str, epoch: u64)
    ensures
        final(message)@ == old(message)@ + cell_at_epoch(cell@, epoch),
{
    message.append(cell);
    message.append(" epoch ");
    text::push_dec(message, epoch);
    assert(message@ =~= old(message)@ + cell_at_epoch(cell@, epoch));
}

/// What an activation that was not admitted is told. `installing` says that it
/// had already opened its database.
pub fn refusal_message(error: registry::AdmitError, cell: &str, epoch: u64, installing: bool) -> (
message: String)
    ensures
        message@ == match error {
            registry::AdmitError::CloseIncomplete => close_incomplete(cell@, epoch),
            registry::AdmitError::Stopped => if installing {
                "LTX replication stopped before activation installed"@
            } else {
                "LTX replication stopped before activation started"@
            },
        },
{
    match error {
        registry::AdmitError::CloseIncomplete => {
            let mut message = "managed replica close is incomplete for ".to_owned();
            push_cell_at_epoch(&mut message, cell, epoch);
            message
        },
        registry::AdmitError::Stopped => if installing {
            "LTX replication stopped before activation installed".to_owned()
        } else {
            "LTX replication stopped before activation started".to_owned()
        },
    }
}

/// The message of a failed activation of the database at `path`.
pub open spec fn told(error: ActivateError, cell: Seq<char>, epoch: u64, path: Seq<char>) -> Seq<char> {
    match error {
        ActivateError::ReloadMissing => "clean reload database is missing: "@ + path,
        ActivateError::NoBundleSink => cell
            + " has an un-drained bundle tail and no bundle sink"@,
        ActivateError::UsedEpoch(from) => "refusing to restore "@ + cell + " from used epoch "@
            + text::dec(from as nat) + " into writer epoch "@ + text::dec(epoch as nat),
        ActivateError::ParentCell(quoted) => "base.json parent_cell "@ + quoted@
            + " does not match "@ + cell,
        ActivateError::NoParentEpoch => "parent prefix has no LTX epoch for "@ + cell,
        ActivateError::NoTerminal => "parent plan missing terminal LTX"@,
        ActivateError::ForkChecksum => "parent terminal LTX does not match fork_checksum"@,
        ActivateError::Checksum(error) => match error {
            base::Error::Other(message) => message@,
            _ => "parent terminal LTX is corrupted"@,
        },
        ActivateError::NoAnchor(from) => "restore "@ + cell + " e"@ + text::dec(from as nat)
            + ": remote prefix has objects but no LTX anchor or base.json"@,
        ActivateError::Fold(error) => "fold bundle tail for "@ + cell + ": "@ + error@,
        ActivateError::Terminal(error) => "read parent terminal LTX: "@ + error@,
        ActivateError::RestoreBranched(from, error) => "restore branched "@ + cell + " e"@
            + text::dec(from as nat) + ": "@ + error@,
        ActivateError::Restore(from, error) => "restore "@ + cell + " e"@ + text::dec(from as nat)
            + ": "@ + error@,
        ActivateError::Open(error) => "open managed db "@ + path + ": "@ + error@,
        ActivateError::Outside(error) => error@,
    }
}

/// The message of a failed activation of the database at `path`.
pub fn failure_message(error: ActivateError, cell: &str, epoch: u64, path: &str) -> (message: String)
    ensures
        message@ == told(error, cell@, epoch, path@),
{
    let mut message = String::new();
    match error {
        ActivateError::ReloadMissing => {
            message.append("clean reload database is missing: ");
            message.append(path);
        },
        ActivateError::NoBundleSink => {
            message.append(cell);
            message.append(" has an un-drained bundle tail and no bundle sink");
        },
        ActivateError::UsedEpoch(from) => {
            message.append("refusing to restore ");
            message.append(cell);
            message.append(" from used epoch ");
            text::push_dec(&mut message, from);
            message.append(" into writer epoch ");
            text::push_dec(&mut message, epoch);
        },
        ActivateError::ParentCell(quoted) => {
            message.append("base.json parent_cell ");
            message.append(quoted.as_str());
            message.append(" does not match ");
            message.append(cell);
        },
        ActivateError::NoParentEpoch => {
            message.append("parent prefix has no LTX epoch for ");
            message.append(cell);
        },
        ActivateError::NoTerminal => {
            message.append("parent plan missing terminal LTX");
        },
        ActivateError::ForkChecksum => {
            message.append("parent terminal LTX does not match fork_checksum");
        },
        ActivateError::Checksum(error) => match error {
            base::Error::Other(text) => {
                message.append(text.as_str());
            },
            _ => {
                message.append("parent terminal LTX is corrupted");
            },
        },
        ActivateError::NoAnchor(from) => {
            message.append("restore ");
            message.append(cell);
            message.append(" e");
            text::push_dec(&mut message, from);
            message.append(": remote prefix has objects but no LTX anchor or base.json");
        },
        ActivateError::Fold(error) => {
            message.append("fold bundle tail for ");
            message.append(cell);
            message.append(": ");
            message.append(error.as_str());
        },
        ActivateError::Terminal(error) => {
            message.append("read parent terminal LTX: ");
            message.append(error.as_str());
        },
        ActivateError::RestoreBranched(from, error) => {
            message.append("restore branched ");
            message.append(cell);
            message.append(" e");
            text::push_dec(&mut message, from);
            message.append(": ");
            message.append(error.as_str());
        },
        ActivateError::Restore(from, error) => {
            message.append("restore ");
            message.append(cell);
            message.append(" e");
            text::push_dec(&mut message, from);
            message.append(": ");
            message.append(error.as_str());
        },
        ActivateError::Open(error) => {
            message.append("open managed db ");
            message.append(path);
            message.append(": ");
            message.append(error.as_str());
        },
        ActivateError::Outside(error) => {
            message.append(error.as_str());
        },
    }
    assert(message@ =~= told(error, cell@, epoch, path@));
    message
}

/// A database is never restored from the epoch that it will write, nor from a
/// later one.
pub proof fn law_source_is_older_than_the_writer(activation: Activation, from: u64)
    requires
        activation.wf(),
        activation.stage == Stage::Open(Origin::Restored { from }) || activation.stage
            == Stage::Open(Origin::Branched { from }),
    ensures
        from < activation.options.epoch,
{
}

/// No source is looked up, restored or opened past a stranded tail that was
/// not folded.
pub proof fn law_stranded_tail_is_folded_first(activation: Activation)
    requires
        activation.wf(),
        activation.stage is FindSource || source_of(activation.stage) is Some,
    ensures
        activation.dirty ==> activation.folded,
{
}

/// A branched database continues from its fork, and only from the log that the
/// fork was taken from: the baseline is the recorded one.
pub proof fn law_branched_database_continues_from_its_fork(activation: Activation, from: u64)
    requires
        activation.wf(),
        activation.stage == Stage::Open(Origin::Branched { from }),
    ensures
        activation.baseline matches Some(baseline) && activation.base matches Some(pointer)
            && baseline.fork_txid == pointer.fork_txid && baseline.checksum as nat
            == base::hex_value(base::checksum_digits(pointer.fork_checksum@)),
        activation.base matches Some(pointer) && pointer.parent_cell@ == activation.options.cell@,
{
}

/// An activation starts by making its directory, with nothing known yet. A live
/// database is asked for before anything else, a fresh cell is opened as it is, a
/// snapshot is looked for where it may be used, and only then does the source lie
/// elsewhere: behind the stranded tail where there is one, and nowhere where that
/// cannot be folded.
pub proof fn law_nearest_source_is_tried_first(
    options: ActivationOptions,
    begun: Activation,
    activation: &mut Activation,
    dirty: bool,
    has_sink: bool,
    next: Result<(), ActivateError>,
)
    requires
        call_ensures(Activation::begin, (options,), begun),
        *old(activation) == begun,
        call_ensures(Activation::directory_made, (activation, dirty, has_sink), next),
    ensures
        begun.options == options && begun.stage is MakeDirectory,
        begun.base is None && begun.parent is None && begun.baseline is None,
        !begun.dirty && !begun.folded,
        final(activation).options == options,
        final(activation).baseline is None,
        final(activation).stage is FindResumed <==> options.resume_local,
        final(activation).stage == Stage::Open(Origin::Fresh) <==> options.fresh
            && !options.resume_local,
        final(activation).stage == (Stage::FindSnapshot { legacy: false })
            <==> options.previous_reusable && !options.fresh && !options.resume_local,
        ({
            let remote = !options.previous_reusable && !options.fresh && !options.resume_local;
            &&& final(activation).stage is FoldTail <==> remote && dirty && has_sink
            &&& final(activation).stage is FindSource <==> remote && !dirty
            &&& next is Err <==> remote && dirty && !has_sink
        }),
{
}

/// A resumed database must be there. A snapshot is looked for under its present
/// name, then under its old one, and moved under the name that it was found under;
/// without one the source lies elsewhere, behind the stranded tail.
pub proof fn law_local_databases_are_looked_for(
    resuming: &mut Activation,
    found: bool,
    resumed: Result<(), ActivateError>,
    looking: &mut Activation,
    legacy: bool,
    there: bool,
    dirty: bool,
    has_sink: bool,
    looked: Result<(), ActivateError>,
    moving: &mut Activation,
)
    requires
        call_ensures(Activation::resumed_found, (resuming, found), resumed),
        old(looking).stage == (Stage::FindSnapshot { legacy }),
        call_ensures(Activation::snapshot_found, (looking, there, dirty, has_sink), looked),
        old(moving).stage == (Stage::MoveSnapshot { legacy }),
        call_ensures(Activation::snapshot_moved, (moving,), ()),
    ensures
        found ==> final(resuming).stage == Stage::Open(Origin::Resumed) && resumed is Ok,
        !found ==> (resumed matches Err(error) && error is ReloadMissing),
        there ==> final(looking).stage == (Stage::MoveSnapshot { legacy }) && looked is Ok,
        !there && !legacy ==> final(looking).stage == (Stage::FindSnapshot { legacy: true })
            && looked is Ok,
        !there && legacy && !dirty ==> final(looking).stage is FindSource && looked is Ok,
        !there && legacy && dirty && has_sink ==> final(looking).stage is FoldTail && looked is Ok,
        looked is Err <==> !there && legacy && dirty && !has_sink,
        final(moving).stage == Stage::Open(Origin::Reused { legacy }),
{
}

/// The newest log is the source where it is older than the epoch to write, which is
/// refused otherwise; without any log the cell starts empty, after its tail was
/// folded as well.
pub proof fn law_only_an_older_log_is_a_source(
    folding: &mut Activation,
    looking: &mut Activation,
    source: Option<u64>,
    next: Result<(), ActivateError>,
)
    requires
        call_ensures(Activation::tail_folded, (folding,), ()),
        call_ensures(Activation::source_found, (looking, source), next),
    ensures
        final(folding).stage is FindSource && final(folding).folded,
        source is None ==> next is Ok && final(looking).stage == Stage::Open(Origin::Fresh),
        source matches Some(from) ==> {
            &&& next is Ok <==> from < old(looking).options.epoch
            &&& next is Ok ==> final(looking).stage == (Stage::ReadBase { from })
            &&& next matches Err(error) ==> error == ActivateError::UsedEpoch(from)
        },
        final(looking).options == old(looking).options,
        final(looking).folded == old(looking).folded,
{
}

/// A source without a base pointer is restored from its own log; one with a pointer
/// through its parent, which must name the same cell and a version bucket of the
/// node's own project, at the epoch that the pointer names, or at one that is still
/// to be looked for where it names none.
pub proof fn law_branch_is_restored_through_its_parent(
    activation: &mut Activation,
    from: u64,
    pointer: Option<BasePointer>,
    project_id: Result<String, String>,
    bucket: Seq<char>,
    project: Seq<char>,
    version: Seq<char>,
    next: Result<(), ActivateError>,
)
    requires
        old(activation).stage == (Stage::ReadBase { from }),
        call_ensures(Activation::base_read, (activation, pointer, project_id), next),
        pointer matches Some(pointer) ==> pointer.parent_bucket@ == "s3://"@ + bucket + "/"@ + project
            + "/"@ + version,
        bucket.len() > 0 && project.len() > 0 && version.len() > 0,
        !bucket.contains('/') && !project.contains('/') && !version.contains('/'),
    ensures
        pointer is None ==> next is Ok && final(activation).stage == (Stage::FindAnchor { from }),
        pointer matches Some(pointer) ==> {
            &&& next is Ok <==> pointer.parent_cell@ == old(activation).options.cell@ && (
            project_id matches Ok(id) && id@ == project)
            &&& next is Ok && pointer.parent_epoch > 0 ==> final(activation).stage == (
            Stage::ReadTerminal { from, parent_epoch: pointer.parent_epoch })
            &&& next is Ok && pointer.parent_epoch == 0 ==> final(activation).stage == (
            Stage::FindParentEpoch { from })
            &&& next is Ok ==> final(activation).base == Some(pointer) && (
            final(activation).parent matches Some(parent) && parent.uri@ == pointer.parent_bucket@
                && parent.key_prefix@ == project + "/"@ + version + "/"@)
        },
        next is Err ==> *final(activation) == *old(activation),
{
    if let Some(pointer) = pointer {
        cell_branch::lemma_parent_parts(pointer.parent_bucket@, bucket, project, version);
    }
}

/// The parent's log must reach the fork with the checksum that was recorded there.
/// The branched database is then opened with the fork as its baseline, and refused
/// where the parent has no log, no last file, a short one, or another checksum.
pub proof fn law_fork_must_be_as_it_was_recorded(
    looking: &mut Activation,
    from: u64,
    epoch: Option<u64>,
    looked: Result<(), ActivateError>,
    reading: &mut Activation,
    parent_epoch: u64,
    pointer: BasePointer,
    terminal: Option<Vec<u8>>,
    bytes: &[u8],
    found: Result<u64, base::Error>,
    recorded: Result<u64, base::Error>,
    read: Result<(), ActivateError>,
)
    requires
        old(looking).stage == (Stage::FindParentEpoch { from }),
        call_ensures(Activation::parent_epoch_found, (looking, epoch), looked),
        old(reading).stage == (Stage::ReadTerminal { from, parent_epoch }),
        old(reading).base == Some(pointer),
        call_ensures(Activation::terminal_read, (reading, terminal), read),
        terminal matches Some(terminal) ==> bytes@ == terminal@,
        call_ensures(base::post_apply_checksum_from_ltx, (bytes,), found),
        call_ensures(BasePointer::fork_checksum_value, (&pointer,), recorded),
    ensures
        epoch matches Some(parent_epoch) ==> looked is Ok && final(looking).stage == (
        Stage::ReadTerminal { from, parent_epoch }),
        epoch is None ==> (looked matches Err(error) && error is NoParentEpoch),
        read is Ok <==> terminal is Some && found is Ok && recorded is Ok && found->Ok_0
            == recorded->Ok_0,
        read is Ok ==> final(reading).stage == (Stage::RestoreBranched { from, parent_epoch }) && (
        final(reading).baseline matches Some(baseline) && baseline.fork_txid == pointer.fork_txid
            && baseline.checksum == recorded->Ok_0),
        terminal is None ==> (read matches Err(error) && error is NoTerminal),
        terminal is Some && found is Ok && recorded is Ok && found->Ok_0 != recorded->Ok_0 ==> (
        read matches Err(error) && error is ForkChecksum),
        read is Err ==> *final(reading) == *old(reading),
{
}

/// A log with an anchor is restored. Without one an epoch with any object is
/// refused, and only an empty one starts the cell over. What was restored is opened
/// as what it was restored from.
pub proof fn law_state_that_is_there_is_never_started_over(
    anchoring: &mut Activation,
    from: u64,
    anchored: bool,
    searching: &mut Activation,
    found: bool,
    searched: Result<(), ActivateError>,
    branching: &mut Activation,
    parent_epoch: u64,
    restoring: &mut Activation,
)
    requires
        old(anchoring).stage == (Stage::FindAnchor { from }),
        call_ensures(Activation::anchor_found, (anchoring, anchored), ()),
        old(searching).stage == (Stage::FindObjects { from }),
        call_ensures(Activation::objects_found, (searching, found), searched),
        old(branching).stage == (Stage::RestoreBranched { from, parent_epoch }),
        call_ensures(Activation::restore_done, (branching,), ()),
        old(restoring).stage == (Stage::Restore { from }),
        call_ensures(Activation::restore_done, (restoring,), ()),
    ensures
        anchored ==> final(anchoring).stage == (Stage::Restore { from }),
        !anchored ==> final(anchoring).stage == (Stage::FindObjects { from }),
        found ==> (searched matches Err(error) && error == ActivateError::NoAnchor(from)),
        !found ==> searched is Ok && final(searching).stage == Stage::Open(Origin::Fresh),
        final(branching).stage == Stage::Open(Origin::Branched { from }),
        final(branching).baseline == old(branching).baseline,
        final(restoring).stage == Stage::Open(Origin::Restored { from }),
{
}

/// A database that did not start empty holds what the cell had before. A failure is
/// told with what the outside said, as one of the stage that it came at.
pub proof fn law_failure_tells_its_stage(
    opened: Activation,
    origin: Origin,
    restored: bool,
    failing: Activation,
    error: String,
    told: ActivateError,
)
    requires
        opened.stage == Stage::Open(origin),
        call_ensures(Activation::restored, (&opened,), restored),
        call_ensures(Activation::failed, (&failing, error), told),
    ensures
        restored <==> !(origin is Fresh),
        told == ActivateError::Fold(error) <==> failing.stage is FoldTail,
        told == ActivateError::Terminal(error) <==> failing.stage is ReadTerminal,
        told == ActivateError::Open(error) <==> failing.stage is Open,
        failing.stage matches Stage::Restore { from } ==> told == ActivateError::Restore(
            from,
            error,
        ),
        failing.stage matches Stage::RestoreBranched { from, .. } ==> told
            == ActivateError::RestoreBranched(from, error),
        told == ActivateError::Outside(error) <==> !(failing.stage is FoldTail)
            && !(failing.stage is ReadTerminal) && !(failing.stage is Open) && !(
        failing.stage is Restore) && !(failing.stage is RestoreBranched),
{
}

/// A refused activation is told what it was refused for: the stop, by how far it had
/// come, or the close that is under way, by its cell and epoch.
pub proof fn law_refusal_names_its_reason(
    error: registry::AdmitError,
    cell: &str,
    epoch: u64,
    installing: bool,
    message: String,
)
    requires
        call_ensures(refusal_message, (error, cell, epoch, installing), message),
    ensures
        error is CloseIncomplete ==> message@ == "managed replica close is incomplete for "@ + cell@
            + " epoch "@ + text::dec(epoch as nat),
        error is Stopped && installing ==> message@
            == "LTX replication stopped before activation installed"@,
        error is Stopped && !installing ==> message@
            == "LTX replication stopped before activation started"@,
{
    if error is CloseIncomplete {
        assert(message@ =~= "managed replica close is incomplete for "@ + cell@ + " epoch "@
            + text::dec(epoch as nat));
    }
}

/// A failed activation is told with its cell, with the path or the epochs that it was
/// about, and with what the outside said.
pub proof fn law_failure_names_what_it_was_about(
    error: ActivateError,
    cell: &str,
    epoch: u64,
    path: &str,
    message: String,
)
    requires
        call_ensures(failure_message, (error, cell, epoch, path), message),
    ensures
        error is ReloadMissing ==> message@ == "clean reload database is missing: "@ + path@,
        error is NoBundleSink ==> message@ == cell@
            + " has an un-drained bundle tail and no bundle sink"@,
        error matches ActivateError::UsedEpoch(from) ==> message@ == "refusing to restore "@ + cell@
            + " from used epoch "@ + text::dec(from as nat) + " into writer epoch "@ + text::dec(
            epoch as nat,
        ),
        error matches ActivateError::ParentCell(quoted) ==> message@ == "base.json parent_cell "@
            + quoted@ + " does not match "@ + cell@,
        error is NoParentEpoch ==> message@ == "parent prefix has no LTX epoch for "@ + cell@,
        error is NoTerminal ==> message@ == "parent plan missing terminal LTX"@,
        error is ForkChecksum ==> message@
            == "parent terminal LTX does not match fork_checksum"@,
        error matches ActivateError::Checksum(base::Error::Other(why)) ==> message@ == why@,
        error == ActivateError::Checksum(base::Error::LTXCorrupted) ==> message@
            == "parent terminal LTX is corrupted"@,
        error matches ActivateError::NoAnchor(from) ==> message@ == "restore "@ + cell@ + " e"@
            + text::dec(from as nat) + ": remote prefix has objects but no LTX anchor or base.json"@,
        error matches ActivateError::Fold(why) ==> message@ == "fold bundle tail for "@ + cell@
            + ": "@ + why@,
        error matches ActivateError::Terminal(why) ==> message@ == "read parent terminal LTX: "@
            + why@,
        error matches ActivateError::RestoreBranched(from, why) ==> message@ == "restore branched "@
            + cell@ + " e"@ + text::dec(from as nat) + ": "@ + why@,
        error matches ActivateError::Restore(from, why) ==> message@ == "restore "@ + cell@ + " e"@
            + text::dec(from as nat) + ": "@ + why@,
        error matches ActivateError::Open(why) ==> message@ == "open managed db "@ + path@ + ": "@
            + why@,
        error matches ActivateError::Outside(why) ==> message@ == why@,
{
}

/// No step before the source is known changes what was asked for or learned, and the
/// tail is marked only where the source lies elsewhere.
pub proof fn law_local_steps_keep_what_is_known(
    making: &mut Activation,
    resuming: &mut Activation,
    looking: &mut Activation,
    moving: &mut Activation,
    folding: &mut Activation,
    finding: &mut Activation,
    flags: (bool, bool, bool),
    source: Option<u64>,
    ends: (
        Result<(), ActivateError>,
        Result<(), ActivateError>,
        Result<(), ActivateError>,
        Result<(), ActivateError>,
    ),
)
    requires
        call_ensures(Activation::directory_made, (making, flags.0, flags.1), ends.0),
        call_ensures(Activation::resumed_found, (resuming, flags.2), ends.1),
        call_ensures(Activation::snapshot_found, (looking, flags.2, flags.0, flags.1), ends.2),
        call_ensures(Activation::snapshot_moved, (moving,), ()),
        call_ensures(Activation::tail_folded, (folding,), ()),
        call_ensures(Activation::source_found, (finding, source), ends.3),
    ensures
        final(making).options == old(making).options && final(making).base == old(making).base
            && final(making).parent == old(making).parent && final(making).baseline == old(making).baseline && !final(making).folded,
        final(making).dirty ==> flags.0,
        final(making).stage is FindSource || final(making).stage is FoldTail ==> final(making).dirty
            == flags.0,
        final(resuming).options == old(resuming).options && final(resuming).base == old(resuming).base && final(resuming).parent == old(resuming).parent && final(resuming).baseline == old(resuming).baseline && final(resuming).dirty == old(resuming).dirty && final(resuming).folded == old(resuming).folded,
        final(looking).options == old(looking).options && final(looking).base == old(looking).base
            && final(looking).parent == old(looking).parent && final(looking).baseline == old(looking).baseline && !final(looking).folded,
        final(looking).stage is FindSource || final(looking).stage is FoldTail ==> final(looking).dirty == flags.0,
        final(moving).options == old(moving).options && final(moving).base == old(moving).base
            && final(moving).parent == old(moving).parent && final(moving).baseline == old(moving).baseline && final(moving).dirty == old(moving).dirty,
        final(folding).options == old(folding).options && final(folding).base == old(folding).base
            && final(folding).parent == old(folding).parent && final(folding).baseline == old(folding).baseline && final(folding).dirty,
        final(finding).options == old(finding).options && final(finding).base == old(finding).base
            && final(finding).parent == old(finding).parent && final(finding).baseline == old(finding).baseline && final(finding).dirty == old(finding).dirty,
{
}

/// No step behind the source changes what was asked for or whether the tail was
/// folded, nor the pointer and the parent once they are read.
pub proof fn law_remote_steps_keep_what_is_known(
    reading: &mut Activation,
    pointer: Option<BasePointer>,
    project_id: Result<String, String>,
    parenting: &mut Activation,
    epoch: Option<u64>,
    checking: &mut Activation,
    terminal: Option<Vec<u8>>,
    anchoring: &mut Activation,
    searching: &mut Activation,
    restoring: &mut Activation,
    found: bool,
    ends: (
        Result<(), ActivateError>,
        Result<(), ActivateError>,
        Result<(), ActivateError>,
        Result<(), ActivateError>,
    ),
)
    requires
        call_ensures(Activation::base_read, (reading, pointer, project_id), ends.0),
        call_ensures(Activation::parent_epoch_found, (parenting, epoch), ends.1),
        call_ensures(Activation::terminal_read, (checking, terminal), ends.2),
        call_ensures(Activation::anchor_found, (anchoring, found), ()),
        call_ensures(Activation::objects_found, (searching, found), ends.3),
        call_ensures(Activation::restore_done, (restoring,), ()),
    ensures
        final(reading).options == old(reading).options && final(reading).dirty == old(reading).dirty && final(reading).folded == old(reading).folded && final(reading).baseline == old(reading).baseline,
        pointer is None ==> final(reading).base == old(reading).base && final(reading).parent
            == old(reading).parent,
        final(parenting).options == old(parenting).options && final(parenting).base == old(parenting).base && final(parenting).parent == old(parenting).parent && final(parenting).baseline
            == old(parenting).baseline && final(parenting).dirty == old(parenting).dirty && final(parenting).folded == old(parenting).folded,
        final(checking).options == old(checking).options && final(checking).base == old(checking).base && final(checking).parent == old(checking).parent && final(checking).dirty == old(checking).dirty && final(checking).folded == old(checking).folded,
        final(anchoring).options == old(anchoring).options && final(anchoring).base == old(anchoring).base && final(anchoring).parent == old(anchoring).parent && final(anchoring).baseline
            == old(anchoring).baseline && final(anchoring).folded == old(anchoring).folded,
        final(searching).options == old(searching).options && final(searching).base == old(searching).base && final(searching).parent == old(searching).parent && final(searching).baseline
            == old(searching).baseline && final(searching).folded == old(searching).folded,
        final(restoring).options == old(restoring).options && final(restoring).base == old(restoring).base && final(restoring).parent == old(restoring).parent && final(restoring).baseline
            == old(restoring).baseline && final(restoring).folded == old(restoring).folded,
{
}

/// A branched source is gone on with exactly where its pointer names the same cell
/// and a parent that the node's project has; one with any other address is refused.
pub proof fn law_branch_needs_a_parent_of_the_project(
    activation: &mut Activation,
    pointer: BasePointer,
    project_id: Result<String, String>,
    next: Result<(), ActivateError>,
    uri: &str,
    id: &str,
    parent: Result<ValidatedParentBucket, String>,
)
    requires
        old(activation).stage is ReadBase,
        call_ensures(Activation::base_read, (activation, Some(pointer), project_id), next),
        uri@ == pointer.parent_bucket@,
        project_id matches Ok(project_id) ==> id@ == project_id@,
        call_ensures(cell_branch::validate_parent_bucket, (uri, id), parent),
    ensures
        next is Ok <==> pointer.parent_cell@ == old(activation).options.cell@ && project_id is Ok
            && parent is Ok,
        pointer.parent_cell@ != old(activation).options.cell@ ==> (next matches Err(error)
            && error is ParentCell),
        pointer.parent_cell@ == old(activation).options.cell@ && project_id is Err ==> (
        next matches Err(ActivateError::Outside(why)) && why@ == project_id->Err_0@),
        pointer.parent_cell@ == old(activation).options.cell@ && project_id is Ok && parent is Err
            ==> (next matches Err(ActivateError::Outside(why)) && why@ == parent->Err_0@),
{
}

} // verus!
