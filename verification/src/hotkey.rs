//! The global shortcut that shows the window: which combination to register,
//! and the error the settings window shows when that fails.
use vstd::prelude::*;
use global_hotkey::hotkey::HotKey;
use std::str::FromStr;
use crate::text::push_str;

verus! {

#[verifier::external_type_specification]
#[verifier::external_body]
pub struct ExHotKey(HotKey);

/// What `global_hotkey` makes of a combination written as text
/// (`HotKey::from_str`): the hotkey, or the text of its parse error.
pub uninterp spec fn hotkey_parse(spec: Seq<char>) -> Result<HotKey, Seq<char>>;

/// Parses a combination such as `Ctrl+Shift+V` with `HotKey::from_str`,
/// giving the hotkey, or the parse error as text (`HotKeyParseError`'s
/// `Display`). The result depends on the text alone and is named, not
/// described.
#[verifier::external_body]
fn parse_hotkey(spec: &str) -> (r: Result<HotKey, String>)
    ensures
        match r {
            Ok(hotkey) => hotkey_parse(spec@) == Ok::<HotKey, Seq<char>>(hotkey),
            Err(text) => hotkey_parse(spec@) == Err::<HotKey, Seq<char>>(text@),
        },
{
    match HotKey::from_str(spec) {
        Ok(hotkey) => Ok(hotkey),
        Err(e) => Err(e.to_string()),
    }
}

/// The error shown when the combination `spec` does not parse.
pub open spec fn parse_error_message(spec: Seq<char>, error: Seq<char>) -> Seq<char> {
    "не разобрать «"@ + spec + "»: "@ + error
}

/// The error shown when the system refuses to register `spec`.
pub open spec fn register_error_message(spec: Seq<char>, error: Seq<char>) -> Seq<char> {
    "не зарегистрировать «"@ + spec + "»: "@ + error
}

fn message(prefix: &str, spec: &str, error: &str) -> (r: String)
    ensures
        r@ == prefix@ + spec@ + "»: "@ + error@,
{
    let mut s = String::new();
    push_str(&mut s, prefix);
    push_str(&mut s, spec);
    push_str(&mut s, "»: ");
    push_str(&mut s, error);
    assert(s@ =~= prefix@ + spec@ + "»: "@ + error@);
    s
}

/// What to do with the system after `begin_apply`: the combination to
/// unregister, and the one to register.
pub struct ApplyStep {
    pub unregister: Option<HotKey>,
    pub register: Option<HotKey>,
}

/// The registered combination and the last registration error.
pub struct HotkeyState {
    registered: Option<HotKey>,
    error: Option<String>,
}

impl HotkeyState {
    /// The combination now registered.
    pub closed spec fn registered_spec(&self) -> Option<HotKey> {
        self.registered
    }

    /// The error to show, if any.
    pub closed spec fn error_spec(&self) -> Option<Seq<char>> {
        match self.error {
            Some(e) => Some(e@),
            None => None,
        }
    }

    /// Nothing registered, no error.
    pub fn new() -> (s: Self)
        ensures
            s.registered_spec() is None,
            s.error_spec() is None,
    {
        HotkeyState { registered: None, error: None }
    }

    /// The last registration error, as the settings window shows it.
    pub fn error(&self) -> (r: Option<&str>)
        ensures
            match r {
                Some(e) => self.error_spec() == Some(e@),
                None => self.error_spec() is None,
            },
    {
        match &self.error {
            Some(e) => Some(e.as_str()),
            None => None,
        }
    }

    /// Starts re-registering the shortcut as `spec` (`None` turns it off):
    /// the registered combination is handed back for unregistering, the
    /// error is cleared, and `spec` is parsed. When it parses, the hotkey
    /// parsed from `spec` is handed back for registering (then call
    /// `finish_apply`); otherwise the parse error is recorded.
    pub fn begin_apply(&mut self, spec: Option<&str>) -> (step: ApplyStep)
        ensures
            step.unregister == old(self).registered_spec(),
            final(self).registered_spec() is None,
            match spec {
                None => step.register is None && final(self).error_spec() is None,
                Some(s) => match hotkey_parse(s@) {
                    Ok(hotkey) => step.register == Some(hotkey) && final(self).error_spec() is None,
                    Err(e) => step.register is None && final(self).error_spec() == Some(parse_error_message(s@, e)),
                },
            },
    {
        let unregister = self.registered.take();
        self.error = None;
        let spec = match spec {
            None => return ApplyStep { unregister, register: None },
            Some(s) => s,
        };
        match parse_hotkey(spec) {
            Ok(hotkey) => ApplyStep { unregister, register: Some(hotkey) },
            Err(e) => {
                self.error = Some(message("не разобрать «", spec, e.as_str()));
                ApplyStep { unregister, register: None }
            },
        }
    }

    /// Finishes re-registering the shortcut as `spec` with the outcome of
    /// registering `hotkey`: on success it is the registered combination,
    /// on failure the system's error is recorded.
    pub fn finish_apply(&mut self, spec: &str, hotkey: HotKey, outcome: Result<(), String>)
        ensures
            match outcome {
                Ok(()) => final(self).registered_spec() == Some(hotkey) && final(self).error_spec()
                    == old(self).error_spec(),
                Err(e) => final(self).registered_spec() == old(self).registered_spec()
                    && final(self).error_spec() == Some(register_error_message(spec@, e@)),
            },
    {
        match outcome {
            Ok(()) => {
                self.registered = Some(hotkey);
            },
            Err(e) => {
                self.error = Some(message("не зарегистрировать «", spec, e.as_str()));
            },
        }
    }
}

} // verus!
