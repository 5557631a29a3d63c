//! The texts of the tray menu: uptime, status line and labels in English or
//! Chinese.
use vstd::prelude::*;

use crate::text::{decimal, decimal_string};

verus! {

/// The interface language of a locale name (such as `zh_CN.UTF-8`): Chinese
/// where it starts with `zh` in any case, English otherwise.
pub open spec fn locale_language_spec(locale: Seq<char>) -> Seq<char> {
    if crate::text::starts_with_spec(crate::dns::lowercase(locale), "zh"@) {
        "zh"@
    } else {
        "en"@
    }
}

/// The interface language of the operating system's locale, where one is set.
pub fn locale_language(locale: Option<&str>) -> (r: String)
    ensures
        r@ == match locale {
            Some(l) => locale_language_spec(l@),
            None => "en"@,
        },
{
    match locale {
        Some(l) => {
            let lower = crate::dns::to_lowercase(l);
            if crate::text::starts_with(lower.as_str(), "zh") {
                String::from_str("zh")
            } else {
                String::from_str("en")
            }
        },
        None => String::from_str("en"),
    }
}

/// An uptime in its largest units: seconds under a minute, minutes under an
/// hour, hours and minutes under a day, then days and hours.
pub open spec fn uptime_text(seconds: u64) -> Seq<char> {
    let minutes = seconds / 60;
    let hours = minutes / 60;
    if seconds < 60 {
        decimal(seconds as nat) + "s"@
    } else if minutes < 60 {
        decimal(minutes as nat) + "m"@
    } else if hours < 24 {
        decimal(hours as nat) + "h "@ + decimal((minutes % 60) as nat) + "m"@
    } else {
        decimal((hours / 24) as nat) + "d "@ + decimal((hours % 24) as nat) + "h"@
    }
}

fn num_unit(n: u64, unit: &str) -> (r: String)
    ensures
        r@ == decimal(n as nat) + unit@,
{
    let mut s = decimal_string(n);
    s.append(unit);
    s
}

/// The uptime shown in the tray.
pub fn format_uptime(seconds: u64) -> (r: String)
    ensures
        r@ == uptime_text(seconds),
{
    if seconds < 60 {
        return num_unit(seconds, "s");
    }
    let minutes = seconds / 60;
    if minutes < 60 {
        return num_unit(minutes, "m");
    }
    let hours = minutes / 60;
    let remaining_m = minutes % 60;
    if hours < 24 {
        let mut s = num_unit(hours, "h ");
        let m = num_unit(remaining_m, "m");
        s.append(m.as_str());
        return s;
    }
    let days = hours / 24;
    let remaining_h = hours % 24;
    let mut s = num_unit(days, "d ");
    let h = num_unit(remaining_h, "h");
    s.append(h.as_str());
    s
}

/// The tray's status line: running (with the uptime, if known) or stopped,
/// in Chinese when `zh`.
pub open spec fn status_line(running: bool, uptime: Option<u64>, zh: bool) -> Seq<char> {
    let up = match uptime {
        Some(s) => " · "@ + uptime_text(s),
        None => Seq::empty(),
    };
    if running {
        if zh {
            "● 运行中"@ + up
        } else {
            "● Running"@ + up
        }
    } else if zh {
        "● 已停止"@
    } else {
        "● Stopped"@
    }
}

/// The tray's status line.
pub fn tray_status_text(running: bool, uptime: Option<u64>, zh: bool) -> (r: String)
    ensures
        r@ == status_line(running, uptime, zh),
{
    if running {
        let mut s = if zh {
            String::from_str("● 运行中")
        } else {
            String::from_str("● Running")
        };
        match uptime {
            Some(u) => {
                s.append(" · ");
                let t = format_uptime(u);
                s.append(t.as_str());
            },
            None => {
                proof {
                    assert(s@ + Seq::<char>::empty() =~= s@);
                }
            },
        }
        s
    } else if zh {
        String::from_str("● 已停止")
    } else {
        String::from_str("● Stopped")
    }
}

/// The entries of the tray menu.
#[derive(Debug, Clone, Copy, PartialEq, Eq)]
pub enum TrayItem {
    Show,
    Start,
    Stop,
    AddProxy,
    Quit,
}

/// The label of a tray entry, in Chinese when `zh`.
pub open spec fn tray_label_spec(item: TrayItem, zh: bool) -> Seq<char> {
    match item {
        TrayItem::Show => if zh { "显示窗口"@ } else { "Show Window"@ },
        TrayItem::Start => if zh { "启动"@ } else { "Start"@ },
        TrayItem::Stop => if zh { "停止"@ } else { "Stop"@ },
        TrayItem::AddProxy => if zh { "添加代理"@ } else { "Add Proxy"@ },
        TrayItem::Quit => if zh { "退出"@ } else { "Quit"@ },
    }
}

/// The label of a tray entry.
pub fn tray_label(item: TrayItem, zh: bool) -> (r: &'static str)
    ensures
        r@ == tray_label_spec(item, zh),
{
    match item {
        TrayItem::Show => if zh { "显示窗口" } else { "Show Window" },
        TrayItem::Start => if zh { "启动" } else { "Start" },
        TrayItem::Stop => if zh { "停止" } else { "Stop" },
        TrayItem::AddProxy => if zh { "添加代理" } else { "Add Proxy" },
        TrayItem::Quit => if zh { "退出" } else { "Quit" },
    }
}

/// Whether a tray entry can be clicked: Start only while stopped, Stop only
/// while running, the others always.
pub fn tray_enabled(item: TrayItem, running: bool) -> (r: bool)
    ensures
        r == match item {
            TrayItem::Start => !running,
            TrayItem::Stop => running,
            _ => true,
        },
{
    match item {
        TrayItem::Start => !running,
        TrayItem::Stop => running,
        _ => true,
    }
}

} // verus!
