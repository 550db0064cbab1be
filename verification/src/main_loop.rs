//! The game's main loop as a state machine over phases: each step takes what the
//! outside reported (the script sequence, the exit request, the menu and race state) and
//! gives the next phase, the work to do, and whether the frame goes on, ends or the game
//! exits.
use vstd::prelude::*;
use vstd::string::StringExecFns;
use vstd::string::StrSliceExecFns;

verus! {

/// Sequence numbers of the game-sequence script.
pub const SEQUENCE_UNDEFINED: i32 = 0;

pub const SEQUENCE_MENU: i32 = 1;

pub const SEQUENCE_SINGLE_RACE: i32 = 2;

pub const SEQUENCE_RACE: i32 = 4;

/// The phases of one pass of the main loop.
#[derive(Clone, Copy, PartialEq, Eq, Debug, Structural)]
pub enum LoopPhase {
    /// Check exit conditions and determine the next phase.
    CheckConditions,
    /// Menu: allocate the replay buffer.
    MenuAllocateReplay,
    /// Menu: load menu resources (fonts).
    MenuLoadResource,
    /// Menu: set the game mode.
    MenuSetMode,
    /// Menu: start the project.
    MenuStartProject,
    /// Menu: run the project's init callbacks.
    MenuRunInit,
    /// Menu: wait for the user, across frames.
    MenuSync,
    /// Menu: unload menu resources.
    MenuUnloadResource,
    /// Menu: free the unused replay buffer.
    MenuFreeReplay,
    /// Race: play the before-race music.
    RaceBGM,
    /// Race: set the game mode.
    RaceSetMode,
    /// Race: start the race.
    RaceExecute,
    /// Race: drive, across frames, until the race is over.
    RaceRunning,
    /// Race: end the replay buffer.
    RaceEndReplay,
    /// Race: run the next game-plan event.
    RaceExecuteNext,
    /// Clear the font cache: the end of a pass.
    ClearFontCache,
}

/// The game sequence as the loop sees it.
#[derive(Clone)]
pub struct GameSequenceCtx {
    pub finished: bool,
    pub current_sequence: i32,
    pub prev_sequence: i32,
    pub current_project: String,
    pub prev_project: String,
}

/// The loop's own state across frames.
pub struct LoopState {
    pub phase: LoopPhase,
    pub menu_resource_loaded: bool,
    pub game_sequence: GameSequenceCtx,
    pub race_started: bool,
    pub should_exit: bool,
}

/// What the outside reports before a step.
#[derive(Clone, Copy)]
pub struct PhaseInput {
    /// The sequence the scripts report, when they report an integer.
    pub sequence: Option<i32>,
    /// The system asks the game to exit.
    pub exit_game: bool,
    /// The menu UI has finished.
    pub menu_finished: bool,
    /// The buttons held this frame.
    pub keys: u32,
    /// The race has finished or run out of time (after this frame's update).
    pub race_over: bool,
    /// No script frame is running.
    pub call_stack_empty: bool,
}

/// The outside work a step asks for.
#[derive(Clone, Copy, PartialEq, Eq, Debug, Structural)]
pub enum LoopAction {
    Nothing,
    PrintHeapStatus,
    AllocateReplay,
    LoadMenuFonts,
    /// Set the game mode to this sequence.
    SetMode(i32),
    /// Start the current project.
    StartProject,
    /// Call the current project's load and init functions.
    RunInit,
    /// Mark the menu UI finished.
    FinishMenu,
    UnloadMenuFonts,
    FreeReplay,
    PlayRaceBgm,
    /// Set up the race and start its project.
    StartRace,
    EndReplay,
    ExecuteNext,
    ClearFontCache,
}

/// Whether the frame goes on after a step.
#[derive(Clone, Copy, PartialEq, Eq, Debug, Structural)]
pub enum Flow {
    /// Take the next step in this frame.
    Continue,
    /// Wait for the next frame.
    Yield,
    /// The game ends.
    Exit,
}

/// The part of the loop state that steps change.
#[derive(Clone, Copy, PartialEq, Eq, Structural)]
pub struct PhaseCore {
    pub phase: LoopPhase,
    pub menu_resource_loaded: bool,
    pub current_sequence: i32,
    pub finished: bool,
    pub race_started: bool,
    pub should_exit: bool,
}

/// The button that quits a race (L).
pub open spec fn quit_held(keys: u32) -> bool {
    (keys >> 6u32) & 1 != 0
}

/// `c` moved to `phase`, nothing else changed.
pub open spec fn goto(c: PhaseCore, phase: LoopPhase) -> PhaseCore {
    PhaseCore {
        phase,
        menu_resource_loaded: c.menu_resource_loaded,
        current_sequence: c.current_sequence,
        finished: c.finished,
        race_started: c.race_started,
        should_exit: c.should_exit,
    }
}

/// One step of the main loop from `c` with the report `i`: the new state, the work to
/// do and how the frame goes on.
pub open spec fn step_core(c: PhaseCore, i: PhaseInput) -> (PhaseCore, LoopAction, Flow) {
    match c.phase {
        LoopPhase::CheckConditions => {
            let seq = match i.sequence {
                Some(s) => s,
                None => c.current_sequence,
            };
            let c1 = PhaseCore {
                phase: c.phase,
                menu_resource_loaded: c.menu_resource_loaded,
                current_sequence: seq,
                finished: c.finished,
                race_started: c.race_started,
                should_exit: c.should_exit,
            };
            if c.finished || i.exit_game {
                (
                    PhaseCore {
                        phase: c.phase,
                        menu_resource_loaded: c.menu_resource_loaded,
                        current_sequence: seq,
                        finished: c.finished,
                        race_started: c.race_started,
                        should_exit: true,
                    },
                    LoopAction::Nothing,
                    Flow::Exit,
                )
            } else {
                let next = if seq == SEQUENCE_MENU {
                    LoopPhase::MenuAllocateReplay
                } else if seq == SEQUENCE_RACE {
                    LoopPhase::RaceBGM
                } else {
                    LoopPhase::CheckConditions
                };
                (goto(c1, next), LoopAction::PrintHeapStatus, Flow::Continue)
            }
        },
        LoopPhase::MenuAllocateReplay => (
            goto(c, LoopPhase::MenuLoadResource),
            LoopAction::AllocateReplay,
            Flow::Continue,
        ),
        LoopPhase::MenuLoadResource => if c.menu_resource_loaded {
            (goto(c, LoopPhase::MenuSetMode), LoopAction::Nothing, Flow::Continue)
        } else {
            (
                PhaseCore {
                    phase: LoopPhase::MenuSetMode,
                    menu_resource_loaded: true,
                    current_sequence: c.current_sequence,
                    finished: c.finished,
                    race_started: c.race_started,
                    should_exit: c.should_exit,
                },
                LoopAction::LoadMenuFonts,
                Flow::Continue,
            )
        },
        LoopPhase::MenuSetMode => (
            goto(c, LoopPhase::MenuStartProject),
            LoopAction::SetMode(c.current_sequence),
            Flow::Continue,
        ),
        LoopPhase::MenuStartProject => (
            goto(c, LoopPhase::MenuRunInit),
            LoopAction::StartProject,
            Flow::Continue,
        ),
        LoopPhase::MenuRunInit => (goto(c, LoopPhase::MenuSync), LoopAction::RunInit, Flow::Continue),
        LoopPhase::MenuSync => {
            let seq = match i.sequence {
                Some(s) => s,
                None => c.current_sequence,
            };
            let race = i.sequence == Some(SEQUENCE_RACE);
            let c1 = PhaseCore {
                phase: if race || i.menu_finished {
                    LoopPhase::MenuUnloadResource
                } else {
                    LoopPhase::MenuSync
                },
                menu_resource_loaded: c.menu_resource_loaded,
                current_sequence: seq,
                finished: c.finished,
                race_started: c.race_started,
                should_exit: c.should_exit,
            };
            (
                c1,
                if race {
                    LoopAction::FinishMenu
                } else {
                    LoopAction::Nothing
                },
                if race || i.menu_finished {
                    Flow::Continue
                } else {
                    Flow::Yield
                },
            )
        },
        LoopPhase::MenuUnloadResource => if c.menu_resource_loaded {
            (
                PhaseCore {
                    phase: LoopPhase::MenuFreeReplay,
                    menu_resource_loaded: false,
                    current_sequence: c.current_sequence,
                    finished: c.finished,
                    race_started: c.race_started,
                    should_exit: c.should_exit,
                },
                LoopAction::UnloadMenuFonts,
                Flow::Continue,
            )
        } else {
            (goto(c, LoopPhase::MenuFreeReplay), LoopAction::Nothing, Flow::Continue)
        },
        LoopPhase::MenuFreeReplay => (
            goto(c, LoopPhase::ClearFontCache),
            LoopAction::FreeReplay,
            Flow::Continue,
        ),
        LoopPhase::RaceBGM => (
            goto(c, LoopPhase::RaceSetMode),
            LoopAction::PlayRaceBgm,
            Flow::Continue,
        ),
        LoopPhase::RaceSetMode => (
            goto(c, LoopPhase::RaceExecute),
            LoopAction::SetMode(c.current_sequence),
            Flow::Continue,
        ),
        LoopPhase::RaceExecute => if c.race_started {
            (goto(c, LoopPhase::RaceRunning), LoopAction::Nothing, Flow::Continue)
        } else {
            (
                PhaseCore {
                    phase: LoopPhase::RaceRunning,
                    menu_resource_loaded: c.menu_resource_loaded,
                    current_sequence: c.current_sequence,
                    finished: c.finished,
                    race_started: true,
                    should_exit: c.should_exit,
                },
                LoopAction::StartRace,
                Flow::Continue,
            )
        },
        LoopPhase::RaceRunning => {
            let quit = quit_held(i.keys);
            if quit || i.race_over {
                if i.call_stack_empty || quit {
                    (
                        PhaseCore {
                            phase: LoopPhase::RaceEndReplay,
                            menu_resource_loaded: c.menu_resource_loaded,
                            current_sequence: c.current_sequence,
                            finished: c.finished,
                            race_started: false,
                            should_exit: c.should_exit,
                        },
                        LoopAction::Nothing,
                        Flow::Continue,
                    )
                } else {
                    (c, LoopAction::Nothing, Flow::Continue)
                }
            } else {
                (c, LoopAction::Nothing, Flow::Yield)
            }
        },
        LoopPhase::RaceEndReplay => (
            goto(c, LoopPhase::RaceExecuteNext),
            LoopAction::EndReplay,
            Flow::Continue,
        ),
        LoopPhase::RaceExecuteNext => (
            goto(c, LoopPhase::ClearFontCache),
            LoopAction::ExecuteNext,
            Flow::Continue,
        ),
        LoopPhase::ClearFontCache => (
            goto(c, LoopPhase::CheckConditions),
            LoopAction::ClearFontCache,
            Flow::Continue,
        ),
    }
}

impl LoopState {
    /// The changing part of the state.
    pub open spec fn phase_core(self) -> PhaseCore {
        PhaseCore {
            phase: self.phase,
            menu_resource_loaded: self.menu_resource_loaded,
            current_sequence: self.game_sequence.current_sequence,
            finished: self.game_sequence.finished,
            race_started: self.race_started,
            should_exit: self.should_exit,
        }
    }

    /// The start state: checking conditions, in the menu sequence with the "arcade"
    /// project, nothing loaded or started.
    pub fn new() -> (s: Self)
        ensures
            s.phase == LoopPhase::CheckConditions,
            !s.menu_resource_loaded,
            !s.game_sequence.finished,
            s.game_sequence.current_sequence == SEQUENCE_MENU,
            s.game_sequence.prev_sequence == SEQUENCE_UNDEFINED,
            s.game_sequence.current_project@ == "arcade"@,
            s.game_sequence.prev_project@ == "undefined"@,
            !s.race_started,
            !s.should_exit,
    {
        LoopState {
            phase: LoopPhase::CheckConditions,
            menu_resource_loaded: false,
            game_sequence: GameSequenceCtx {
                finished: false,
                current_sequence: SEQUENCE_MENU,
                prev_sequence: SEQUENCE_UNDEFINED,
                current_project: String::from_str("arcade"),
                prev_project: String::from_str("undefined"),
            },
            race_started: false,
            should_exit: false,
        }
    }

    /// Takes one step of the loop (see `step_core`).
    pub fn step(&mut self, input: &PhaseInput) -> (r: (LoopAction, Flow))
        ensures
            final(self).phase_core() == step_core(old(self).phase_core(), *input).0,
            r == (step_core(old(self).phase_core(), *input).1, step_core(old(self).phase_core(), *input).2),
            final(self).game_sequence.prev_sequence == old(self).game_sequence.prev_sequence,
            final(self).game_sequence.current_project == old(self).game_sequence.current_project,
            final(self).game_sequence.prev_project == old(self).game_sequence.prev_project,
    {
        match self.phase {
            LoopPhase::CheckConditions => {
                match input.sequence {
                    Some(seq) => {
                        self.game_sequence.current_sequence = seq;
                    },
                    None => {},
                }
                if self.game_sequence.finished || input.exit_game {
                    self.should_exit = true;
                    return (LoopAction::Nothing, Flow::Exit);
                }
                let seq = self.game_sequence.current_sequence;
                self.phase = if seq == SEQUENCE_MENU {
                    LoopPhase::MenuAllocateReplay
                } else if seq == SEQUENCE_RACE {
                    LoopPhase::RaceBGM
                } else {
                    LoopPhase::CheckConditions
                };
                (LoopAction::PrintHeapStatus, Flow::Continue)
            },
            LoopPhase::MenuAllocateReplay => {
                self.phase = LoopPhase::MenuLoadResource;
                (LoopAction::AllocateReplay, Flow::Continue)
            },
            LoopPhase::MenuLoadResource => {
                self.phase = LoopPhase::MenuSetMode;
                if !self.menu_resource_loaded {
                    self.menu_resource_loaded = true;
                    (LoopAction::LoadMenuFonts, Flow::Continue)
                } else {
                    (LoopAction::Nothing, Flow::Continue)
                }
            },
            LoopPhase::MenuSetMode => {
                self.phase = LoopPhase::MenuStartProject;
                (LoopAction::SetMode(self.game_sequence.current_sequence), Flow::Continue)
            },
            LoopPhase::MenuStartProject => {
                self.phase = LoopPhase::MenuRunInit;
                (LoopAction::StartProject, Flow::Continue)
            },
            LoopPhase::MenuRunInit => {
                self.phase = LoopPhase::MenuSync;
                (LoopAction::RunInit, Flow::Continue)
            },
            LoopPhase::MenuSync => {
                let mut race = false;
                match input.sequence {
                    Some(seq) => {
                        self.game_sequence.current_sequence = seq;
                        race = seq == SEQUENCE_RACE;
                    },
                    None => {},
                }
                let action = if race {
                    LoopAction::FinishMenu
                } else {
                    LoopAction::Nothing
                };
                if race || input.menu_finished {
                    self.phase = LoopPhase::MenuUnloadResource;
                    (action, Flow::Continue)
                } else {
                    (action, Flow::Yield)
                }
            },
            LoopPhase::MenuUnloadResource => {
                self.phase = LoopPhase::MenuFreeReplay;
                if self.menu_resource_loaded {
                    self.menu_resource_loaded = false;
                    (LoopAction::UnloadMenuFonts, Flow::Continue)
                } else {
                    (LoopAction::Nothing, Flow::Continue)
                }
            },
            LoopPhase::MenuFreeReplay => {
                self.phase = LoopPhase::ClearFontCache;
                (LoopAction::FreeReplay, Flow::Continue)
            },
            LoopPhase::RaceBGM => {
                self.phase = LoopPhase::RaceSetMode;
                (LoopAction::PlayRaceBgm, Flow::Continue)
            },
            LoopPhase::RaceSetMode => {
                self.phase = LoopPhase::RaceExecute;
                (LoopAction::SetMode(self.game_sequence.current_sequence), Flow::Continue)
            },
            LoopPhase::RaceExecute => {
                self.phase = LoopPhase::RaceRunning;
                if !self.race_started {
                    self.race_started = true;
                    (LoopAction::StartRace, Flow::Continue)
                } else {
                    (LoopAction::Nothing, Flow::Continue)
                }
            },
            LoopPhase::RaceRunning => {
                let quit = (input.keys >> 6u32) & 1 != 0;
                if quit || input.race_over {
                    if input.call_stack_empty || quit {
                        self.race_started = false;
                        self.phase = LoopPhase::RaceEndReplay;
                    }
                    (LoopAction::Nothing, Flow::Continue)
                } else {
                    (LoopAction::Nothing, Flow::Yield)
                }
            },
            LoopPhase::RaceEndReplay => {
                self.phase = LoopPhase::RaceExecuteNext;
                (LoopAction::EndReplay, Flow::Continue)
            },
            LoopPhase::RaceExecuteNext => {
                self.phase = LoopPhase::ClearFontCache;
                (LoopAction::ExecuteNext, Flow::Continue)
            },
            LoopPhase::ClearFontCache => {
                self.phase = LoopPhase::CheckConditions;
                (LoopAction::ClearFontCache, Flow::Continue)
            },
        }
    }
}

/// A frame only waits in the two blocking phases, and the game only exits from the
/// condition check, with the exit flag set.
pub proof fn lemma_step_flow(c: PhaseCore, i: PhaseInput)
    ensures
        step_core(c, i).2 == Flow::Yield ==> c.phase == LoopPhase::MenuSync || c.phase
            == LoopPhase::RaceRunning,
        step_core(c, i).2 == Flow::Exit ==> c.phase == LoopPhase::CheckConditions
            && step_core(c, i).0.should_exit,
{
}

/// Fonts are loaded only when not loaded and unloaded only when loaded, and the loaded
/// flag follows: the menu never loads its fonts twice or unloads them twice.
pub proof fn lemma_fonts_balanced(c: PhaseCore, i: PhaseInput)
    ensures
        step_core(c, i).1 == LoopAction::LoadMenuFonts ==> !c.menu_resource_loaded
            && step_core(c, i).0.menu_resource_loaded,
        step_core(c, i).1 == LoopAction::UnloadMenuFonts ==> c.menu_resource_loaded
            && !step_core(c, i).0.menu_resource_loaded,
        step_core(c, i).1 != LoopAction::LoadMenuFonts && step_core(c, i).1
            != LoopAction::UnloadMenuFonts ==> step_core(c, i).0.menu_resource_loaded
            == c.menu_resource_loaded,
{
}

/// A pass through the menu: from the condition check in the menu sequence, with no exit
/// asked and the menu finishing at once, nine steps of one frame load and unload the
/// fonts and come back to the condition check.
pub proof fn lemma_menu_pass(c: PhaseCore, i: PhaseInput)
    requires
        c.phase == LoopPhase::CheckConditions,
        !c.finished,
        !c.menu_resource_loaded,
        !i.exit_game,
        i.sequence == Some(SEQUENCE_MENU),
        i.menu_finished,
    ensures
        ({
            let s1 = step_core(c, i);
            let s2 = step_core(s1.0, i);
            let s3 = step_core(s2.0, i);
            let s4 = step_core(s3.0, i);
            let s5 = step_core(s4.0, i);
            let s6 = step_core(s5.0, i);
            let s7 = step_core(s6.0, i);
            let s8 = step_core(s7.0, i);
            let s9 = step_core(s8.0, i);
            let s10 = step_core(s9.0, i);
            &&& s3.1 == LoopAction::LoadMenuFonts
            &&& s8.1 == LoopAction::UnloadMenuFonts
            &&& s10.0.phase == LoopPhase::CheckConditions
            &&& !s10.0.menu_resource_loaded
            &&& s10.0.current_sequence == SEQUENCE_MENU
            &&& s1.2 == Flow::Continue && s2.2 == Flow::Continue && s3.2 == Flow::Continue
            &&& s4.2 == Flow::Continue && s5.2 == Flow::Continue && s6.2 == Flow::Continue
            &&& s7.2 == Flow::Continue && s8.2 == Flow::Continue && s9.2 == Flow::Continue
            &&& s10.2 == Flow::Continue
        }),
{
}

/// A race that is quit: from the condition check in the race sequence, the race is
/// started once, and when quit the loop ends the replay and comes back to the condition check
/// with no race running.
pub proof fn lemma_race_pass(c: PhaseCore, i: PhaseInput)
    requires
        c.phase == LoopPhase::CheckConditions,
        !c.finished,
        !c.race_started,
        !i.exit_game,
        i.sequence == Some(SEQUENCE_RACE),
        quit_held(i.keys),
    ensures
        ({
            let s1 = step_core(c, i);
            let s2 = step_core(s1.0, i);
            let s3 = step_core(s2.0, i);
            let s4 = step_core(s3.0, i);
            let s5 = step_core(s4.0, i);
            let s6 = step_core(s5.0, i);
            let s7 = step_core(s6.0, i);
            let s8 = step_core(s7.0, i);
            &&& s4.1 == LoopAction::StartRace
            &&& s4.0.race_started
            &&& !s5.0.race_started
            &&& s8.0.phase == LoopPhase::CheckConditions
            &&& s8.0.current_sequence == SEQUENCE_RACE
        }),
{
}

/// What a step of the race phase drives with: throttle (UP or CROSS), brake (DOWN or
/// CIRCLE), steering (LEFT, RIGHT) and quit (L).
#[derive(Clone, Copy, PartialEq, Eq, Structural)]
pub struct RaceControls {
    pub throttle: bool,
    pub brake: bool,
    pub steer_left: bool,
    pub steer_right: bool,
    pub quit: bool,
}

/// The race controls held in `keys`.
pub open spec fn controls_of(keys: u32) -> RaceControls {
    RaceControls {
        throttle: (keys >> 2u32) & 1 != 0 || (keys >> 10u32) & 1 != 0,
        brake: (keys >> 4u32) & 1 != 0 || (keys >> 9u32) & 1 != 0,
        steer_left: (keys >> 5u32) & 1 != 0,
        steer_right: (keys >> 3u32) & 1 != 0,
        quit: (keys >> 6u32) & 1 != 0,
    }
}

/// The race controls held in `keys` (see `controls_of`).
pub fn race_controls(keys: u32) -> (c: RaceControls)
    ensures
        c == controls_of(keys),
{
    RaceControls {
        throttle: (keys >> 2u32) & 1 != 0 || (keys >> 10u32) & 1 != 0,
        brake: (keys >> 4u32) & 1 != 0 || (keys >> 9u32) & 1 != 0,
        steer_left: (keys >> 5u32) & 1 != 0,
        steer_right: (keys >> 3u32) & 1 != 0,
        quit: (keys >> 6u32) & 1 != 0,
    }
}

/// What `char::to_uppercase` gives for `c` (one or more characters).
pub uninterp spec fn upper_case_of(c: char) -> Seq<char>;

/// Upper-cases a character: `char::to_uppercase`, collected into a string.
#[verifier::external_body]
fn char_upper(c: char) -> (s: String)
    ensures
        s@ == upper_case_of(c),
{
    c.to_uppercase().collect()
}

/// `s` with its first character upper-cased.
pub open spec fn capitalized(s: Seq<char>) -> Seq<char> {
    if s.len() == 0 {
        Seq::empty()
    } else {
        upper_case_of(s[0]) + s.drop_first()
    }
}

/// `s` with its first character upper-cased (see `capitalized`).
pub fn capitalize(s: &str) -> (r: String)
    ensures
        r@ == capitalized(s@),
{
    let n = s.unicode_len();
    if n == 0 {
        return String::new();
    }
    let first = s.get_char(0);
    let mut out = char_upper(first);
    let rest = s.substring_char(1, n);
    out.append(rest);
    proof {
        assert(rest@ =~= s@.drop_first());
    }
    out
}

} // verus!
