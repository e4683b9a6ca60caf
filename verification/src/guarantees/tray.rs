//! What the tray menu offers, what becomes of the window, and how an update goes.
use crate::shell::{
    MenuCommand, MenuEntry, UpdateAction, UpdateEvent, WindowChange, WindowReply,
};
use crate::shell;
use vstd::prelude::*;
use vstd::string::*;

verus! {

/// The menu offers the settings, a scan, the switch and the way out, in this order, and the switch
/// is checked if and only if renaming is switched on. Choosing each asks for what it offers.
pub proof fn law_the_menu_offers_four_things(
    enabled: bool,
    r: Vec<MenuEntry>,
    open: &str,
    scan: &str,
    switch: &str,
    quit: &str,
    a: MenuCommand,
    b: MenuCommand,
    c: MenuCommand,
    d: MenuCommand,
)
    requires
        call_ensures(shell::build_tray, (enabled,), r),
        r@.len() > 0 ==> (r@[0] matches MenuEntry::Item(id, _) ==> open@ == id@),
        r@.len() > 1 ==> (r@[1] matches MenuEntry::Item(id, _) ==> scan@ == id@),
        r@.len() > 3 ==> (r@[3] matches MenuEntry::Check(id, _, _) ==> switch@ == id@),
        r@.len() > 5 ==> (r@[5] matches MenuEntry::Item(id, _) ==> quit@ == id@),
        call_ensures(shell::menu_command, (open,), a),
        call_ensures(shell::menu_command, (scan,), b),
        call_ensures(shell::menu_command, (switch,), c),
        call_ensures(shell::menu_command, (quit,), d),
    ensures
        r@.len() == 6,
        r@[0] matches MenuEntry::Item(_, label) && label@ == "설정 열기…"@,
        r@[1] matches MenuEntry::Item(_, label) && label@ == "지금 전체 검사"@,
        r@[2] is Separator,
        r@[3] matches MenuEntry::Check(_, label, checked) && label@ == "자동 정규화"@ && checked
            == enabled,
        r@[4] is Separator,
        r@[5] matches MenuEntry::Item(_, label) && label@ == "종료"@,
        a == MenuCommand::ShowWindow,
        b == MenuCommand::Scan,
        c == MenuCommand::Toggle,
        d == MenuCommand::Quit,
{
    let views = shell::menu_views(r@);
    assert(views.len() == r@.len());
    assert forall|i: int| 0 <= i < r@.len() implies #[trigger] views[i] == r@[i]@ by {}
    assert(views == shell::tray_menu(enabled));
    assert(views[0] == r@[0]@ && views[1] == r@[1]@ && views[2] == r@[2]@);
    assert(views[3] == r@[3]@ && views[4] == r@[4]@ && views[5] == r@[5]@);
    shell::law_every_entry_has_its_command(enabled);
}

/// The identifiers of the menu, and no other text, ask for something.
pub proof fn law_only_the_entries_ask_for_something(id: &str, r: MenuCommand)
    requires
        call_ensures(shell::menu_command, (id,), r),
    ensures
        r == MenuCommand::ShowWindow <==> id@ == "open"@,
        r == MenuCommand::Scan <==> id@ == "scan"@,
        r == MenuCommand::Toggle <==> id@ == "enabled"@,
        r == MenuCommand::Quit <==> id@ == "quit"@,
{
    reveal_strlit("open");
    reveal_strlit("scan");
    reveal_strlit("enabled");
    reveal_strlit("quit");
    assert("open"@[0] != "scan"@[0] && "open"@[0] != "enabled"@[0] && "open"@[0] != "quit"@[0]);
    assert("scan"@[0] != "enabled"@[0] && "scan"@[0] != "quit"@[0]);
    assert("enabled"@[0] != "quit"@[0]);
}

/// A window that is asked to close is hidden in place of that; nothing else touches it.
pub proof fn law_windows_are_hidden_not_closed(change: WindowChange, r: WindowReply)
    requires
        call_ensures(shell::on_window_event, (change,), r),
    ensures
        r.hide <==> change == WindowChange::CloseRequested,
        r.prevent_close <==> change == WindowChange::CloseRequested,
{
}

/// The program goes on unless it is told to exit with a code.
pub proof fn law_only_codes_exit(code: Option<i32>, r: bool)
    requires
        call_ensures(shell::prevents_exit, (code,), r),
    ensures
        r <==> code is None,
{
}

/// An update is installed exactly where the user agreed, and the program restarts exactly once it
/// is installed. Without one, or without consent, nothing happens.
pub proof fn law_updates_need_consent(event: UpdateEvent, r: UpdateAction)
    requires
        call_ensures(shell::update_step, (event,), r),
    ensures
        r is Install <==> event == UpdateEvent::Answered(true),
        r is Restart <==> event is Installed,
        r is Ask <==> event is Found,
        r is Tell <==> event is InstallFailed,
        r is Stop <==> event is Unavailable || event is UpToDate || event
            == UpdateEvent::Answered(false),
{
}

/// The question names the version that was found, and offers to update now or later.
pub proof fn law_the_question_names_the_version(version: String, r: UpdateAction)
    requires
        call_ensures(shell::update_step, (UpdateEvent::Found(version),), r),
    ensures
        r matches UpdateAction::Ask(title, message, accept, decline) && {
            &&& title@ == "Jamoa 업데이트"@
            &&& message@ == "새 버전 v"@ + version@
                + "이 나왔습니다. 지금 업데이트할까요?\n(다운로드 후 자동으로 재시작됩니다)"@
            &&& accept@ == "업데이트"@
            &&& decline@ == "나중에"@
        },
{
}

/// A failure to install is told as it was reported.
pub proof fn law_failures_to_install_are_told(error: String, r: UpdateAction)
    requires
        call_ensures(shell::update_step, (UpdateEvent::InstallFailed(error),), r),
    ensures
        r matches UpdateAction::Tell(title, message) && title@ == "Jamoa 업데이트"@ && message@
            == "업데이트에 실패했습니다: "@ + error@,
{
}

} // verus!
