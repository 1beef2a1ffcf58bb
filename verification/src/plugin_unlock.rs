//! The command-line switches that open Codex's debugging port to the
//! plugin-unlock injection, and the choice of page to inject into.

use vstd::prelude::*;
use vstd::string::StringExecFns;

use crate::json::{
    json_data, json_get, json_parsed, json_text, json_text_of, parse_json, JsonData, JsonNumber,
    JsonValue,
};
use crate::text::{chars_of, contains, decimal, decimal_chars, has_infix, push_all, string_of};

verus! {

/// `--remote-debugging-port=<port>`.
pub open spec fn debugging_port_arg(port: u16) -> Seq<char> {
    "--remote-debugging-port="@ + decimal(port as nat)
}

/// `--remote-allow-origins=http://127.0.0.1:<port>`.
pub open spec fn allow_origins_arg(port: u16) -> Seq<char> {
    "--remote-allow-origins=http://127.0.0.1:"@ + decimal(port as nat)
}

/// The switches that open Codex's debugging port `debug_port` to the local
/// injection.
pub fn plugin_unlock_arguments(debug_port: u16) -> (r: [String; 2])
    ensures
        r[0]@ == debugging_port_arg(debug_port),
        r[1]@ == allow_origins_arg(debug_port),
{
    let digits = decimal_chars(debug_port as u128);
    let mut first = chars_of("--remote-debugging-port=");
    push_all(&mut first, digits.as_slice());
    let mut second = chars_of("--remote-allow-origins=http://127.0.0.1:");
    push_all(&mut second, digits.as_slice());
    [string_of(first.as_slice()), string_of(second.as_slice())]
}

/// A debugging target that Codex's DevTools endpoint lists.
#[derive(Debug)]
pub struct CdpTarget {
    pub target_type: String,
    pub title: String,
    pub url: String,
    pub web_socket_debugger_url: Option<String>,
}

/// What `str::to_lowercase` gives for a text (Unicode lower case).
pub uninterp spec fn unicode_lower(s: Seq<char>) -> Seq<char>;

/// `s.to_lowercase()`.
///
/// The Unicode case mapping is std's and is not restated: the result is tied
/// to the text by the name `unicode_lower` alone.
#[verifier::external_body]
fn to_lowercase(s: &str) -> (r: String)
    ensures
        r@ == unicode_lower(s@),
{
    s.to_lowercase()
}

/// A page with a debugger socket to inject into.
pub open spec fn is_injectable(t: CdpTarget) -> bool {
    t.target_type@ == "page"@ && match t.web_socket_debugger_url {
        Some(u) => u@.len() > 0,
        None => false,
    }
}

/// A target whose title or URL mentions Codex, in any case.
pub open spec fn mentions_codex(t: CdpTarget) -> bool {
    contains(unicode_lower(t.title@ + seq![' '] + t.url@), "codex"@)
}

/// A page to inject into that mentions Codex.
pub open spec fn is_codex_page(t: CdpTarget) -> bool {
    is_injectable(t) && mentions_codex(t)
}

/// `i` is the target to inject into: the first page that mentions Codex, or
/// when none does, the first page.
pub open spec fn picks(ts: Seq<CdpTarget>, i: int) -> bool {
    &&& 0 <= i < ts.len()
    &&& is_injectable(ts[i])
    &&& if exists|k: int| 0 <= k < ts.len() && is_codex_page(#[trigger] ts[k]) {
        is_codex_page(ts[i]) && forall|k: int| 0 <= k < i ==> !is_codex_page(#[trigger] ts[k])
    } else {
        forall|k: int| 0 <= k < i ==> !is_injectable(#[trigger] ts[k])
    }
}

/// The message when no page can be injected into.
pub open spec fn no_target_message() -> Seq<char> {
    "No injectable Codex page target found"@
}

/// The target to inject into: the first page with a debugger socket whose
/// title or URL mentions Codex, else the first such page.
pub fn pick_page_target(targets: &[CdpTarget]) -> (r: Result<&CdpTarget, String>)
    ensures
        match r {
            Ok(t) => exists|i: int| picks(targets@, i) && *t == targets@[i],
            Err(m) => m@ == no_target_message() && forall|k: int|
                0 <= k < targets@.len() ==> !is_injectable(#[trigger] targets@[k]),
        },
{
    let mut first_page: Option<usize> = None;
    let mut i: usize = 0;
    while i < targets.len()
        invariant
            i <= targets@.len(),
            forall|k: int| 0 <= k < i ==> !is_codex_page(#[trigger] targets@[k]),
            match first_page {
                Some(f) => f < i && is_injectable(targets@[f as int]) && forall|k: int|
                    0 <= k < f ==> !is_injectable(#[trigger] targets@[k]),
                None => forall|k: int| 0 <= k < i ==> !is_injectable(#[trigger] targets@[k]),
            },
        decreases targets@.len() - i,
    {
        let t = &targets[i];
        let injectable = match &t.web_socket_debugger_url {
            Some(u) => u.unicode_len() > 0,
            None => false,
        };
        let page = chars_of(t.target_type.as_str());
        proof {
            reveal_strlit("page");
        }
        let is_page = page.len() == 4 && page[0] == 'p' && page[1] == 'a' && page[2] == 'g'
            && page[3] == 'e';
        proof {
            if is_page {
                assert(page@ =~= "page"@);
            } else if page@ == "page"@ {
                assert(page@[0] == 'p' && page@[1] == 'a' && page@[2] == 'g' && page@[3] == 'e');
            }
        }
        if is_page && injectable {
            if first_page.is_none() {
                first_page = Some(i);
            }
            let mut hay = chars_of(t.title.as_str());
            hay.push(' ');
            push_all(&mut hay, chars_of(t.url.as_str()).as_slice());
            assert(hay@ =~= t.title@ + seq![' '] + t.url@);
            let lower = to_lowercase(string_of(hay.as_slice()).as_str());
            if has_infix(chars_of(lower.as_str()).as_slice(), chars_of("codex").as_slice()) {
                assert(picks(targets@, i as int));
                return Ok(t);
            }
        }
        i = i + 1;
    }
    match first_page {
        Some(f) => {
            assert(picks(targets@, f as int));
            Ok(&targets[f])
        },
        None => Err(String::from_str("No injectable Codex page target found")),
    }
}

/// The script that unlocks the plugin entry and the install buttons in the
/// Codex window.
pub const PLUGIN_UNLOCK_SCRIPT: &'static str = r#"
(() => {
  if (window.__codexManagerPluginUnlockInstalled) return;
  window.__codexManagerPluginUnlockInstalled = true;

  const selectors = {
    disabledInstallButton: 'button:disabled, button[aria-disabled="true"], [role="button"][aria-disabled="true"], button[data-disabled], [role="button"][data-disabled], button.cursor-not-allowed, [role="button"].cursor-not-allowed, button.pointer-events-none, [role="button"].pointer-events-none',
    pluginNavButton: 'nav[role="navigation"] button.h-token-nav-row.w-full',
    pluginSvgPath: 'svg path[d^="M7.94562 14.0277"]',
  };

  function reactFiberFrom(element) {
    const fiberKey = Object.keys(element).find((key) => key.startsWith("__reactFiber"));
    return fiberKey ? element[fiberKey] : null;
  }

  function authContextValueFrom(element) {
    for (let fiber = reactFiberFrom(element); fiber; fiber = fiber.return) {
      for (const value of [fiber.memoizedProps?.value, fiber.pendingProps?.value]) {
        if (value && typeof value === "object" && typeof value.setAuthMethod === "function" && "authMethod" in value) {
          return value;
        }
      }
    }
    return null;
  }

  function spoofChatGPTAuthMethod(element) {
    const auth = authContextValueFrom(element);
    if (!auth || auth.authMethod === "chatgpt") return;
    auth.setAuthMethod("chatgpt");
  }

  function pluginEntryButton() {
    const byIcon = document.querySelector(`${selectors.pluginNavButton} ${selectors.pluginSvgPath}`)?.closest("button");
    if (byIcon) return byIcon;
    return Array.from(document.querySelectorAll(selectors.pluginNavButton))
      .find((button) => /^(插件|Plugins)(\s+-\s+.*)?$/i.test((button.textContent || "").trim())) || null;
  }

  function labelUnlockedPluginEntry(button) {
    const labelTextNode = Array.from(button.querySelectorAll("span, div")).reverse()
      .flatMap((node) => Array.from(node.childNodes))
      .find((node) => node.nodeType === 3 && /^(插件|Plugins)( - 已解锁| - Unlocked)?$/i.test((node.nodeValue || "").trim()));
    if (!labelTextNode) return;
    const current = (labelTextNode.nodeValue || "").trim();
    labelTextNode.nodeValue = /^Plugins/i.test(current) ? "Plugins - Unlocked" : "插件 - 已解锁";
  }

  function patchReactDisabledProps(element) {
    Object.keys(element)
      .filter((key) => key.startsWith("__reactProps"))
      .forEach((key) => {
        const props = element[key];
        if (!props || typeof props !== "object") return;
        props.disabled = false;
        props["aria-disabled"] = false;
        props["data-disabled"] = undefined;
      });
  }

  function clearDisabledState(element) {
    if (!(element instanceof HTMLElement)) return;
    if ("disabled" in element) element.disabled = false;
    element.removeAttribute("disabled");
    element.removeAttribute("aria-disabled");
    element.removeAttribute("data-disabled");
    element.removeAttribute("inert");
    element.classList.remove("disabled", "opacity-50", "cursor-not-allowed", "pointer-events-none");
    element.style.pointerEvents = "auto";
    element.style.opacity = "";
    element.style.cursor = "pointer";
    element.tabIndex = 0;
    patchReactDisabledProps(element);
  }

  function enablePluginEntry() {
    const pluginButton = pluginEntryButton();
    if (!pluginButton) return;
    spoofChatGPTAuthMethod(pluginButton);
    clearDisabledState(pluginButton);
    pluginButton.style.display = "";
    pluginButton.querySelectorAll("*").forEach((node) => {
      node.style.display = "";
      clearDisabledState(node);
    });
    labelUnlockedPluginEntry(pluginButton);
    if (pluginButton.dataset.codexManagerPluginEnabled === "true") return;
    pluginButton.dataset.codexManagerPluginEnabled = "true";
    pluginButton.addEventListener("click", () => spoofChatGPTAuthMethod(pluginButton), true);
  }

  function installButtonCandidates() {
    const nodes = Array.from(document.querySelectorAll(selectors.disabledInstallButton));
    return Array.from(new Set(nodes.map((node) => node.closest?.("button, [role='button']") || node)));
  }

  function isInstallButtonLabel(text) {
    return /^安装\s*/.test(text) || /^Install\s*/i.test(text) || text === "强制安装";
  }

  function unlockInstallButton(button) {
    if (!isInstallButtonLabel((button.textContent || "").trim())) return;
    [button, ...(button.querySelectorAll?.("button, [role='button'], [disabled], [aria-disabled], [data-disabled], .cursor-not-allowed, .pointer-events-none") || [])]
      .forEach(clearDisabledState);
    const walker = document.createTreeWalker(button, NodeFilter.SHOW_TEXT);
    while (walker.nextNode()) {
      const node = walker.currentNode;
      if (isInstallButtonLabel((node.nodeValue || "").trim())) {
        node.nodeValue = "强制安装";
        break;
      }
    }
  }

  let refreshQueued = false;
  function refreshPluginUnlock() {
    refreshQueued = false;
    enablePluginEntry();
    installButtonCandidates().forEach(unlockInstallButton);
  }

  function queuePluginUnlockRefresh() {
    if (refreshQueued) return;
    refreshQueued = true;
    setTimeout(refreshPluginUnlock, 100);
  }

  refreshPluginUnlock();
  const observer = new MutationObserver(queuePluginUnlockRefresh);
  observer.observe(document.documentElement, { childList: true, subtree: true });
  setInterval(refreshPluginUnlock, 1000);
})();
"#;

/// The DevTools command that installs `script`: on every new document, or
/// evaluated once in the current one.
pub open spec fn cdp_command(new_document: bool, script: Seq<char>) -> JsonData {
    let id: u64 = if new_document {
        1
    } else {
        2
    };
    JsonData::Object(
        seq![
            ("id"@, JsonData::Number(Some(id), Some(id as i64), decimal(id as nat))),
            (
                "method"@,
                JsonData::Str(
                    if new_document {
                        "Page.addScriptToEvaluateOnNewDocument"@
                    } else {
                        "Runtime.evaluate"@
                    },
                ),
            ),
            (
                "params"@,
                if new_document {
                    JsonData::Object(seq![("source"@, JsonData::Str(script))])
                } else {
                    JsonData::Object(
                        seq![
                            ("allowUnsafeEvalBlockedByCSP"@, JsonData::Bool(true)),
                            ("expression"@, JsonData::Str(script)),
                        ],
                    )
                },
            ),
        ],
    )
}

/// The text of the DevTools command that installs `script`.
pub fn cdp_command_text(new_document: bool, script: &str) -> (r: String)
    ensures
        r@ == json_text(cdp_command(new_document, script@)),
{
    let id: u64 = if new_document {
        1
    } else {
        2
    };
    let method = if new_document {
        String::from_str("Page.addScriptToEvaluateOnNewDocument")
    } else {
        String::from_str("Runtime.evaluate")
    };
    let mut params: Vec<(String, JsonValue)> = Vec::new();
    if new_document {
        params.push((String::from_str("source"), JsonValue::String(String::from_str(script))));
    } else {
        params.push((String::from_str("allowUnsafeEvalBlockedByCSP"), JsonValue::Bool(true)));
        params.push((String::from_str("expression"), JsonValue::String(String::from_str(script))));
    }
    proof {
        if new_document {
            assert(json_data(params@[0].1) == JsonData::Str(script@));
        } else {
            assert(json_data(params@[0].1) == JsonData::Bool(true));
            assert(json_data(params@[1].1) == JsonData::Str(script@));
        }
    }
    let params = JsonValue::Object(params);
    let digits = decimal_chars(id as u128);
    let number = JsonNumber { as_u64: Some(id), as_i64: Some(id as i64), text: string_of(digits.as_slice()) };
    let mut members: Vec<(String, JsonValue)> = Vec::new();
    members.push((String::from_str("id"), JsonValue::Number(number)));
    members.push((String::from_str("method"), JsonValue::String(method)));
    members.push((String::from_str("params"), params));
    let command = JsonValue::Object(members);
    proof {
        if let JsonData::Object(ps) = json_data(members@[2].1) {
            if new_document {
                assert(ps =~= seq![("source"@, JsonData::Str(script@))]);
            } else {
                assert(ps =~= seq![
                    ("allowUnsafeEvalBlockedByCSP"@, JsonData::Bool(true)),
                    ("expression"@, JsonData::Str(script@)),
                ]);
            }
        }
        assert(json_data(members@[0].1) == JsonData::Number(Some(id), Some(id as i64), decimal(id as nat)));
        assert(json_data(members@[1].1) == JsonData::Str(
            if new_document {
                "Page.addScriptToEvaluateOnNewDocument"@
            } else {
                "Runtime.evaluate"@
            },
        ));
        if let JsonData::Object(ms) = json_data(command) {
            assert(ms =~= cdp_command(new_document, script@)->Object_0);
        }
    }
    string_of(json_text_of(&command).as_slice())
}

/// What a DevTools reply means to the injection waiting for command `id`.
#[derive(Debug)]
pub enum CdpReply {
    /// The text is not JSON.
    NotJson,
    /// A reply to another command, or an event.
    Unrelated,
    /// The command succeeded.
    Done,
    /// The command failed; the message holds the error as JSON.
    Failed(String),
}

/// What the reply `payload` means to the injection waiting for command `id`.
pub open spec fn spec_cdp_reply(payload: JsonValue, id: u64) -> Option<Option<Seq<char>>> {
    match json_get(payload, "id"@) {
        Some(JsonValue::Number(n)) if n.as_u64 == Some(id) => match json_get(payload, "error"@) {
            Some(e) => Some(Some("CDP injection failed: "@ + json_text(json_data(e)))),
            None => Some(None),
        },
        _ => None,
    }
}

/// Reads a DevTools reply: `Unrelated` when its `id` is not `id`, else
/// `Failed` with its `error` or `Done`.
pub fn cdp_reply(payload: &JsonValue, id: u64) -> (r: CdpReply)
    ensures
        match spec_cdp_reply(*payload, id) {
            None => r is Unrelated,
            Some(None) => r is Done,
            Some(Some(m)) => r matches CdpReply::Failed(t) && t@ == m,
        },
{
    let ours = match payload.get("id") {
        Some(JsonValue::Number(n)) => match n.as_u64 {
            Some(x) => x == id,
            None => false,
        },
        _ => false,
    };
    if !ours {
        return CdpReply::Unrelated;
    }
    match payload.get("error") {
        Some(e) => {
            let mut m = chars_of("CDP injection failed: ");
            push_all(&mut m, json_text_of(e).as_slice());
            CdpReply::Failed(string_of(m.as_slice()))
        },
        None => CdpReply::Done,
    }
}

/// Reads the text of a DevTools message as a reply to command `id`.
pub fn read_cdp_reply(text: &str, id: u64) -> (r: CdpReply)
    ensures
        r is NotJson <==> json_parsed(text@) is None,
        !(r is NotJson) ==> exists|v: JsonValue| json_parsed(text@) == Some(json_data(v)) && match spec_cdp_reply(v, id) {
            None => r is Unrelated,
            Some(None) => r is Done,
            Some(Some(m)) => r matches CdpReply::Failed(t) && t@ == m,
        },
{
    match parse_json(text) {
        Some(v) => cdp_reply(&v, id),
        None => CdpReply::NotJson,
    }
}

} // verus!
