//! The course of a run from the command line.

use crate::state::ApiState;
use crate::text::{chars_of, decimal_string, string_of, trim};
use std::path::PathBuf;
use vstd::prelude::*;

verus! {

/// What was asked for on the command line.
#[derive(Debug)]
pub struct Args {
    pub directory: PathBuf,
    pub recursive: bool,
    pub backup: bool,
    pub no_calibration: bool,
}

/// The stages of a run, in their order.
#[derive(Clone, Copy, Debug, PartialEq, Eq, Structural)]
pub enum Stage {
    Directory,
    Permissions,
    Keys,
    Images,
    Preload,
    State,
    Confirm,
    Client,
    Compress,
    Save,
    Report,
}

/// What a stage led to.
#[derive(Clone, Copy, Debug, PartialEq, Eq, Structural)]
pub enum StageEvent {
    Done,
    /// So many keys were read, or images found.
    Found(usize),
    /// What was answered.
    Answered(bool),
    Failed,
}

/// How a run goes on.
#[derive(Clone, Copy, Debug, PartialEq, Eq, Structural)]
pub enum Next {
    Go(Stage),
    NoKeys,
    NoImages,
    Cancelled,
    Finished,
    Failed(Stage),
}

/// The place of a stage in a run.
pub open spec fn place(stage: Stage) -> nat {
    match stage {
        Stage::Directory => 0,
        Stage::Permissions => 1,
        Stage::Keys => 2,
        Stage::Images => 3,
        Stage::Preload => 4,
        Stage::State => 5,
        Stage::Confirm => 6,
        Stage::Client => 7,
        Stage::Compress => 8,
        Stage::Save => 9,
        Stage::Report => 10,
    }
}

/// An event to which a stage can lead.
pub open spec fn is_event_of(stage: Stage, event: StageEvent) -> bool {
    match event {
        StageEvent::Done => !(stage is Keys) && !(stage is Images) && !(stage is Confirm),
        StageEvent::Found(_) => stage is Keys || stage is Images,
        StageEvent::Answered(_) => stage is Confirm,
        StageEvent::Failed => !(stage is Report),
    }
}

/// How a run goes on after a stage.
pub open spec fn next_of(stage: Stage, event: StageEvent) -> Next {
    match event {
        StageEvent::Failed => Next::Failed(stage),
        StageEvent::Found(n) => if n > 0 {
            Next::Go(
                if stage is Keys {
                    Stage::Images
                } else {
                    Stage::Preload
                },
            )
        } else if stage is Keys {
            Next::NoKeys
        } else {
            Next::NoImages
        },
        StageEvent::Answered(yes) => if yes {
            Next::Go(Stage::Client)
        } else {
            Next::Cancelled
        },
        StageEvent::Done => match stage {
            Stage::Directory => Next::Go(Stage::Permissions),
            Stage::Permissions => Next::Go(Stage::Keys),
            Stage::Preload => Next::Go(Stage::State),
            Stage::State => Next::Go(Stage::Confirm),
            Stage::Client => Next::Go(Stage::Compress),
            Stage::Compress => Next::Go(Stage::Save),
            Stage::Save => Next::Go(Stage::Report),
            _ => Next::Finished,
        },
    }
}

impl Stage {
    /// Tells whether a stage can lead to an event.
    pub fn admits(self, event: StageEvent) -> (r: bool)
        ensures
            r == is_event_of(self, event),
    {
        match event {
            StageEvent::Done => match self {
                Stage::Keys | Stage::Images | Stage::Confirm => false,
                _ => true,
            },
            StageEvent::Found(_) => match self {
                Stage::Keys | Stage::Images => true,
                _ => false,
            },
            StageEvent::Answered(_) => match self {
                Stage::Confirm => true,
                _ => false,
            },
            StageEvent::Failed => match self {
                Stage::Report => false,
                _ => true,
            },
        }
    }

    /// How the run goes on after this stage.
    pub fn next(self, event: StageEvent) -> (next: Next)
        requires
            is_event_of(self, event),
        ensures
            next == next_of(self, event),
    {
        match event {
            StageEvent::Failed => Next::Failed(self),
            StageEvent::Found(n) => match self {
                Stage::Keys => {
                    if n > 0 {
                        Next::Go(Stage::Images)
                    } else {
                        Next::NoKeys
                    }
                },
                _ => {
                    if n > 0 {
                        Next::Go(Stage::Preload)
                    } else {
                        Next::NoImages
                    }
                },
            },
            StageEvent::Answered(yes) => {
                if yes {
                    Next::Go(Stage::Client)
                } else {
                    Next::Cancelled
                }
            },
            StageEvent::Done => match self {
                Stage::Directory => Next::Go(Stage::Permissions),
                Stage::Permissions => Next::Go(Stage::Keys),
                Stage::Preload => Next::Go(Stage::State),
                Stage::State => Next::Go(Stage::Confirm),
                Stage::Client => Next::Go(Stage::Compress),
                Stage::Compress => Next::Go(Stage::Save),
                Stage::Save => Next::Go(Stage::Report),
                _ => Next::Finished,
            },
        }
    }

    /// What is said when the stage fails; nothing where the error speaks for itself.
    pub open spec fn words(self) -> Option<Seq<char>> {
        match self {
            Stage::Directory => Some("无法确定工作目录"@),
            Stage::Permissions => Some("目录权限检查失败"@),
            Stage::Keys => Some("无法读取API密钥文件"@),
            Stage::Images => Some("查找图片文件失败"@),
            Stage::Client => Some("创建Tinify客户端失败"@),
            Stage::Compress => Some("图片压缩处理失败"@),
            _ => None,
        }
    }

    /// What is said when the stage fails; nothing where the error speaks for itself.
    pub fn context(self) -> (s: Option<&'static str>)
        ensures
            match s {
                Some(text) => self.words() == Some(text@),
                None => self.words() is None,
            },
    {
        match self {
            Stage::Directory => Some("无法确定工作目录"),
            Stage::Permissions => Some("目录权限检查失败"),
            Stage::Keys => Some("无法读取API密钥文件"),
            Stage::Images => Some("查找图片文件失败"),
            Stage::Client => Some("创建Tinify客户端失败"),
            Stage::Compress => Some("图片压缩处理失败"),
            _ => None,
        }
    }
}

impl Next {
    /// What is said when a run ends for this reason.
    pub open spec fn words(self) -> Option<Seq<char>> {
        match self {
            Next::NoKeys => Some("Tinypng API密钥.txt 中没有找到任何 key"@),
            Next::NoImages => Some("未找到支持的图片文件"@),
            Next::Cancelled => Some("操作已取消"@),
            _ => None,
        }
    }

    /// What is said when a run ends for this reason.
    pub fn message(self) -> (s: Option<&'static str>)
        ensures
            match s {
                Some(text) => self.words() == Some(text@),
                None => self.words() is None,
            },
    {
        match self {
            Next::NoKeys => Some("Tinypng API密钥.txt 中没有找到任何 key"),
            Next::NoImages => Some("未找到支持的图片文件"),
            Next::Cancelled => Some("操作已取消"),
            _ => None,
        }
    }
}

/// What is said of images that could not be loaded beforehand; nothing where all were loaded.
pub open spec fn preload_words(failed: nat) -> Option<Seq<char>> {
    if failed > 0 {
        Some(crate::text::decimal(failed) + " 张图片预加载失败，将尝试直接处理"@)
    } else {
        None
    }
}

/// What is said of images that could not be loaded beforehand.
pub fn preload_warning(failed: usize) -> (s: Option<String>)
    ensures
        match s {
            Some(text) => preload_words(failed as nat) == Some(text@),
            None => preload_words(failed as nat) is None,
        },
{
    if failed > 0 {
        let mut text = decimal_string(failed as u64);
        text.append(" 张图片预加载失败，将尝试直接处理");
        Some(text)
    } else {
        None
    }
}

/// Yes or no.
pub open spec fn yes_no(yes: bool) -> Seq<char> {
    if yes {
        "是"@
    } else {
        "否"@
    }
}

/// What the table of settings says: a name and a value on each row.
pub open spec fn settings(
    images: nat,
    args: Args,
    credits: Map<Seq<char>, u32>,
) -> Seq<(Seq<char>, Seq<char>)> {
    seq![
        ("图片数量"@, crate::text::decimal(images)),
        ("递归搜索"@, yes_no(args.recursive)),
        ("创建备份"@, yes_no(args.backup)),
        (
            "校准模式"@,
            if args.no_calibration {
                "关闭"@
            } else {
                "开启"@
            },
        ),
        (
            "可用API密钥"@,
            crate::text::decimal(crate::state::active_keys(credits).len()),
        ),
        ("预估总额度"@, crate::text::decimal(crate::state::total_credits(credits))),
    ]
}

fn yes_no_text(yes: bool) -> (s: String)
    ensures
        s@ == yes_no(yes),
{
    if yes {
        "是".to_owned()
    } else {
        "否".to_owned()
    }
}

/// The rows of the table of settings.
pub fn config_rows(images: usize, args: &Args, api_state: &ApiState) -> (rows: Vec<
    (String, String),
>)
    requires
        crate::state::total_credits(api_state.key_statuses@) <= u32::MAX,
    ensures
        rows@.map_values(|r: (String, String)| (r.0@, r.1@)) == settings(
            images as nat,
            *args,
            api_state.key_statuses@,
        ),
{
    let mut rows: Vec<(String, String)> = Vec::new();
    rows.push(("图片数量".to_owned(), decimal_string(images as u64)));
    rows.push(("递归搜索".to_owned(), yes_no_text(args.recursive)));
    rows.push(("创建备份".to_owned(), yes_no_text(args.backup)));
    let calibration = if args.no_calibration {
        "关闭".to_owned()
    } else {
        "开启".to_owned()
    };
    rows.push(("校准模式".to_owned(), calibration));
    rows.push(
        ("可用API密钥".to_owned(), decimal_string(api_state.active_keys_count() as u64)),
    );
    rows.push(
        ("预估总额度".to_owned(), decimal_string(api_state.total_remaining_credits() as u64)),
    );
    assert(rows@.map_values(|r: (String, String)| (r.0@, r.1@)) =~= settings(
        images as nat,
        *args,
        api_state.key_statuses@,
    ));
    rows
}

/// The search for the directory to work in.
#[derive(Clone, Copy, Debug, PartialEq, Eq, Structural)]
pub enum DirectorySearch {
    /// The directory that was asked for is being looked up.
    Given,
    /// Another directory is being asked for.
    Asking,
    /// The other directory is being looked up.
    Entered,
}

/// What a part of the search led to.
pub enum DirectoryEvent {
    /// A path was looked up.
    LookedUp { path: PathBuf, exists: bool },
    /// This was entered.
    Text(String),
}

/// What is to be done next.
pub enum DirectoryAction {
    /// Work in this directory, by its canonical path.
    Canonicalize(PathBuf),
    /// Ask for another directory.
    Ask,
    /// Look up the path that was entered.
    LookUp(String),
    /// Work in this directory.
    Use(PathBuf),
    /// Give up: there is no such directory.
    Missing(PathBuf),
}

/// An event to which a part of the search can lead.
pub open spec fn is_event_of_search(search: DirectorySearch, event: DirectoryEvent) -> bool {
    (event is Text) == (search is Asking)
}

/// What a step of the search does.
pub open spec fn searches(
    search: DirectorySearch,
    event: DirectoryEvent,
    next: DirectorySearch,
    action: DirectoryAction,
) -> bool {
    match event {
        DirectoryEvent::LookedUp { path, exists } => if search is Given {
            if exists {
                next is Given && action == DirectoryAction::Canonicalize(path)
            } else {
                next is Asking && action is Ask
            }
        } else {
            &&& next is Entered
            &&& action == if exists {
                DirectoryAction::Use(path)
            } else {
                DirectoryAction::Missing(path)
            }
        },
        DirectoryEvent::Text(text) => {
            &&& next is Entered
            &&& action matches DirectoryAction::LookUp(entered)
            &&& entered@ == crate::text::trimmed(text@)
        },
    }
}

impl DirectorySearch {
    /// Tells whether this part of the search can lead to an event.
    pub fn admits(self, event: &DirectoryEvent) -> (r: bool)
        ensures
            r == is_event_of_search(self, *event),
    {
        match (self, event) {
            (DirectorySearch::Asking, DirectoryEvent::Text(_)) => true,
            (DirectorySearch::Asking, _) => false,
            (_, DirectoryEvent::Text(_)) => false,
            _ => true,
        }
    }

    /// Takes what the last action led to.
    pub fn step(self, event: DirectoryEvent) -> (r: (DirectorySearch, DirectoryAction))
        requires
            is_event_of_search(self, event),
        ensures
            searches(self, event, r.0, r.1),
    {
        match event {
            DirectoryEvent::LookedUp { path, exists } => match self {
                DirectorySearch::Given => {
                    if exists {
                        (DirectorySearch::Given, DirectoryAction::Canonicalize(path))
                    } else {
                        (DirectorySearch::Asking, DirectoryAction::Ask)
                    }
                },
                _ => {
                    if exists {
                        (DirectorySearch::Entered, DirectoryAction::Use(path))
                    } else {
                        (DirectorySearch::Entered, DirectoryAction::Missing(path))
                    }
                },
            },
            DirectoryEvent::Text(text) => {
                let entered = trim(&chars_of(text.as_str()));
                (DirectorySearch::Entered, DirectoryAction::LookUp(string_of(&entered)))
            },
        }
    }
}

/// The path that is meant: an absolute one as it is, another one below the current directory.
pub fn target_directory(given: PathBuf, is_absolute: bool, below_current: PathBuf) -> (path: PathBuf)
    ensures
        path == if is_absolute {
            given
        } else {
            below_current
        },
{
    if is_absolute {
        given
    } else {
        below_current
    }
}

/// A run takes its stages in their order and leaves none out.
pub proof fn law_stages_in_order(stage: Stage, event: StageEvent)
    requires
        is_event_of(stage, event),
    ensures
        next_of(stage, event) matches Next::Go(next) ==> place(next) == place(stage) + 1,
        next_of(stage, event) is Finished ==> stage is Report,
{
}

/// A run goes past the reading of keys, the search for images and the confirmation only with a
/// key, with an image, and with a yes.
pub proof fn law_run_needs_keys_images_and_consent(stage: Stage, event: StageEvent)
    requires
        is_event_of(stage, event),
        next_of(stage, event) is Go,
    ensures
        stage is Keys ==> (event matches StageEvent::Found(n) && n > 0),
        stage is Images ==> (event matches StageEvent::Found(n) && n > 0),
        stage is Confirm ==> event == StageEvent::Answered(true),
        event != StageEvent::Failed,
{
}

/// A directory is worked in only if it is there, and another one is asked for once at most.
pub proof fn law_directory_exists(
    search: DirectorySearch,
    event: DirectoryEvent,
    next: DirectorySearch,
    action: DirectoryAction,
)
    requires
        is_event_of_search(search, event),
        searches(search, event, next, action),
    ensures
        action is Use || action is Canonicalize ==> (event matches DirectoryEvent::LookedUp {
            exists,
            ..
        } && exists),
        action is Ask ==> search is Given && (event matches DirectoryEvent::LookedUp { exists, .. }
            && !exists),
        !(search is Given) ==> !(next is Given),
{
}

/// How a run goes on from each stage, whatever the number of keys or images, if there is one.
pub proof fn law_course_of_a_run(stage: Stage, n: usize)
    requires
        n > 0,
    ensures
        next_of(Stage::Directory, StageEvent::Done) == Next::Go(Stage::Permissions),
        next_of(Stage::Permissions, StageEvent::Done) == Next::Go(Stage::Keys),
        next_of(Stage::Keys, StageEvent::Found(n)) == Next::Go(Stage::Images),
        next_of(Stage::Images, StageEvent::Found(n)) == Next::Go(Stage::Preload),
        next_of(Stage::Preload, StageEvent::Done) == Next::Go(Stage::State),
        next_of(Stage::State, StageEvent::Done) == Next::Go(Stage::Confirm),
        next_of(Stage::Confirm, StageEvent::Answered(true)) == Next::Go(Stage::Client),
        next_of(Stage::Client, StageEvent::Done) == Next::Go(Stage::Compress),
        next_of(Stage::Compress, StageEvent::Done) == Next::Go(Stage::Save),
        next_of(Stage::Save, StageEvent::Done) == Next::Go(Stage::Report),
        next_of(Stage::Report, StageEvent::Done) == Next::Finished,
        next_of(Stage::Keys, StageEvent::Found(0)) == Next::NoKeys,
        next_of(Stage::Images, StageEvent::Found(0)) == Next::NoImages,
        next_of(Stage::Confirm, StageEvent::Answered(false)) == Next::Cancelled,
        next_of(stage, StageEvent::Failed) == Next::Failed(stage),
{
}

/// Keys and images are counted, a question is answered, every other stage is just done; and every
/// stage but the report can fail.
pub proof fn law_events_of_stages(stage: Stage, n: usize, yes: bool)
    ensures
        is_event_of(stage, StageEvent::Found(n)) <==> stage == Stage::Keys || stage
            == Stage::Images,
        is_event_of(stage, StageEvent::Answered(yes)) <==> stage == Stage::Confirm,
        is_event_of(stage, StageEvent::Done) <==> stage != Stage::Keys && stage != Stage::Images
            && stage != Stage::Confirm,
        is_event_of(stage, StageEvent::Failed) <==> stage != Stage::Report,
{
}

/// What is said of a stage that failed, and of a run that ends early; of anything else nothing is.
pub proof fn law_words_at_an_end(stage: Stage, next: Next)
    ensures
        Stage::Directory.words() == Some("无法确定工作目录"@),
        Stage::Permissions.words() == Some("目录权限检查失败"@),
        Stage::Keys.words() == Some("无法读取API密钥文件"@),
        Stage::Images.words() == Some("查找图片文件失败"@),
        Stage::Client.words() == Some("创建Tinify客户端失败"@),
        Stage::Compress.words() == Some("图片压缩处理失败"@),
        stage is Preload || stage is State || stage is Confirm || stage is Save || stage is Report
            ==> stage.words() is None,
        Next::NoKeys.words() == Some("Tinypng API密钥.txt 中没有找到任何 key"@),
        Next::NoImages.words() == Some("未找到支持的图片文件"@),
        Next::Cancelled.words() == Some("操作已取消"@),
        next is Go || next is Finished || next is Failed ==> next.words() is None,
{
}

/// A warning names how many images could not be loaded; where all were loaded there is none.
pub proof fn law_preload_warning_names_the_number(failed: nat)
    ensures
        preload_words(0) is None,
        failed > 0 ==> preload_words(failed) == Some(
            crate::text::decimal(failed) + " 张图片预加载失败，将尝试直接处理"@,
        ),
{
}

/// The settings that are shown are those that were asked for, with the number of images, of active
/// keys, and of all credits.
pub proof fn law_settings_are_shown(images: nat, args: Args, credits: Map<Seq<char>, u32>)
    ensures
        ({
            let rows = settings(images, args, credits);
            &&& rows.len() == 6
            &&& rows[0] == ("图片数量"@, crate::text::decimal(images))
            &&& rows[1].0 == "递归搜索"@
            &&& args.recursive ==> rows[1].1 == "是"@
            &&& !args.recursive ==> rows[1].1 == "否"@
            &&& rows[2].0 == "创建备份"@
            &&& args.backup ==> rows[2].1 == "是"@
            &&& !args.backup ==> rows[2].1 == "否"@
            &&& rows[3].0 == "校准模式"@
            &&& args.no_calibration ==> rows[3].1 == "关闭"@
            &&& !args.no_calibration ==> rows[3].1 == "开启"@
            &&& rows[4] == (
                "可用API密钥"@,
                crate::text::decimal(crate::state::active_keys(credits).len()),
            )
            &&& rows[5] == (
                "预估总额度"@,
                crate::text::decimal(crate::state::total_credits(credits)),
            )
        }),
{
}

/// A directory that was asked for is used, by its canonical path, if it is there; if not, another
/// one is asked for. That one is looked up as it was entered, but for the whitespace around it,
/// and used if it is there, or reported as missing if not.
pub proof fn law_course_of_the_directory_search(
    path: PathBuf,
    before: Seq<char>,
    entered: Seq<char>,
    behind: Seq<char>,
    text: String,
    next: DirectorySearch,
    action: DirectoryAction,
)
    requires
        text@ == before + entered + behind,
        forall|i: int| 0 <= i < before.len() ==> crate::text::is_space(#[trigger] before[i]),
        forall|i: int| 0 <= i < behind.len() ==> crate::text::is_space(#[trigger] behind[i]),
        entered.len() > 0 ==> !crate::text::is_space(entered.first()) && !crate::text::is_space(
            entered.last(),
        ),
    ensures
        searches(
            DirectorySearch::Given,
            (DirectoryEvent::LookedUp { path, exists: true }),
            next,
            action,
        ) ==> action == DirectoryAction::Canonicalize(path),
        searches(
            DirectorySearch::Given,
            (DirectoryEvent::LookedUp { path, exists: false }),
            next,
            action,
        ) ==> action == DirectoryAction::Ask && next == DirectorySearch::Asking,
        searches(DirectorySearch::Asking, DirectoryEvent::Text(text), next, action) ==> (
        action matches DirectoryAction::LookUp(given) && given@ == entered) && next
            == DirectorySearch::Entered,
        searches(
            DirectorySearch::Entered,
            (DirectoryEvent::LookedUp { path, exists: true }),
            next,
            action,
        ) ==> action == DirectoryAction::Use(path),
        searches(
            DirectorySearch::Entered,
            (DirectoryEvent::LookedUp { path, exists: false }),
            next,
            action,
        ) ==> action == DirectoryAction::Missing(path),
{
    crate::text::law_trim_drops_what_is_around(before, entered, behind);
}

/// Text is entered where it was asked for, and a path is looked up everywhere else.
pub proof fn law_events_of_the_directory_search(
    search: DirectorySearch,
    event: DirectoryEvent,
)
    ensures
        search == DirectorySearch::Asking ==> (is_event_of_search(search, event) <==> event is Text),
        search != DirectorySearch::Asking ==> (is_event_of_search(search, event) <==> event
            is LookedUp),
{
}

/// An absolute path is meant as it is, and any other one below the current directory.
pub proof fn law_path_that_is_meant(
    given: PathBuf,
    is_absolute: bool,
    below_current: PathBuf,
    path: PathBuf,
)
    requires
        call_ensures(target_directory, (given, is_absolute, below_current), path),
    ensures
        is_absolute ==> path == given,
        !is_absolute ==> path == below_current,
{
}

/// How a run goes on after each stage.
pub proof fn law_what_comes_next(stage: Stage, event: StageEvent, next: Next)
    requires
        call_ensures(Stage::next, (stage, event), next),
        is_event_of(stage, event),
    ensures
        event == StageEvent::Failed ==> next == Next::Failed(stage),
        event matches StageEvent::Found(n) ==> {
            &&& stage == Stage::Keys && n > 0 ==> next == Next::Go(Stage::Images)
            &&& stage == Stage::Keys && n == 0 ==> next == Next::NoKeys
            &&& stage == Stage::Images && n > 0 ==> next == Next::Go(Stage::Preload)
            &&& stage == Stage::Images && n == 0 ==> next == Next::NoImages
        },
        event matches StageEvent::Answered(yes) ==> next == if yes {
            Next::Go(Stage::Client)
        } else {
            Next::Cancelled
        },
        event == StageEvent::Done ==> match stage {
            Stage::Directory => next == Next::Go(Stage::Permissions),
            Stage::Permissions => next == Next::Go(Stage::Keys),
            Stage::Preload => next == Next::Go(Stage::State),
            Stage::State => next == Next::Go(Stage::Confirm),
            Stage::Client => next == Next::Go(Stage::Compress),
            Stage::Compress => next == Next::Go(Stage::Save),
            Stage::Save => next == Next::Go(Stage::Report),
            Stage::Report => next == Next::Finished,
            _ => false,
        },
{
}

/// The rows of the table show what was asked for, and the numbers of images, active keys and
/// credits.
pub proof fn law_what_the_table_shows(
    images: usize,
    args: Args,
    state: ApiState,
    rows: Vec<(String, String)>,
)
    requires
        call_ensures(config_rows, (images, &args, &state), rows),
    ensures
        rows@.len() == 6,
        rows@[0].1@ == crate::text::decimal(images as nat),
        rows@[1].1@ == if args.recursive {
            "是"@
        } else {
            "否"@
        },
        rows@[2].1@ == if args.backup {
            "是"@
        } else {
            "否"@
        },
        rows@[3].1@ == if args.no_calibration {
            "关闭"@
        } else {
            "开启"@
        },
        rows@[4].1@ == crate::text::decimal(
            crate::state::active_keys(state.key_statuses@).len(),
        ),
        rows@[5].1@ == crate::text::decimal(crate::state::total_credits(state.key_statuses@)),
{
    let shown = rows@.map_values(|r: (String, String)| (r.0@, r.1@));
    assert(shown.len() == rows@.len());
    assert forall|i: int| 0 <= i < rows@.len() implies #[trigger] rows@[i].1@ == shown[i].1 by {}
}

} // verus!
