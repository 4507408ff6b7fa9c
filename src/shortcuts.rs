//! The list of global shortcuts the shell has registered.

use vstd::prelude::*;
use vstd::string::StringExecFns;

verus! {

/// Registered global shortcuts, in registration order.
pub struct GlobalShortcutService {
    shortcuts: Vec<String>,
}

impl View for GlobalShortcutService {
    type V = Seq<Seq<char>>;

    closed spec fn view(&self) -> Seq<Seq<char>> {
        self.shortcuts@.map_values(|s: String| s@)
    }
}

/// The app-wake shortcut: Cmd+Space on macOS, Ctrl+Space elsewhere.
pub open spec fn app_wake_shortcut(is_macos: bool) -> Seq<char> {
    if is_macos {
        "cmd+space"@
    } else {
        "ctrl+space"@
    }
}

impl GlobalShortcutService {
    pub fn new() -> (r: Self)
        ensures
            r@ == Seq::<Seq<char>>::empty(),
    {
        let r = GlobalShortcutService { shortcuts: Vec::new() };
        assert(r@ =~= Seq::<Seq<char>>::empty());
        r
    }

    /// Registers the shortcut that brings the app to the foreground.
    pub fn register_app_wake(&mut self, is_macos: bool) -> (r: Result<(), String>)
        ensures
            r.is_ok(),
            final(self)@ == old(self)@.push(app_wake_shortcut(is_macos)),
    {
        let shortcut = if is_macos {
            "cmd+space"
        } else {
            "ctrl+space"
        };
        self.shortcuts.push(String::from_str(shortcut));
        assert(self@ =~= old(self)@.push(app_wake_shortcut(is_macos)));
        Ok(())
    }

    pub fn list_shortcuts(&self) -> (r: Vec<String>)
        ensures
            r@.map_values(|s: String| s@) == self@,
    {
        let mut out: Vec<String> = Vec::new();
        let mut i: usize = 0;
        while i < self.shortcuts.len()
            invariant
                i <= self.shortcuts@.len(),
                out@ == self.shortcuts@.subrange(0, i as int),
            decreases self.shortcuts@.len() - i,
        {
            out.push(self.shortcuts[i].clone());
            i += 1;
            assert(out@ =~= self.shortcuts@.subrange(0, i as int));
        }
        assert(out@ =~= self.shortcuts@);
        out
    }

    pub fn unregister_all(&mut self) -> (r: Result<(), String>)
        ensures
            r.is_ok(),
            final(self)@ == Seq::<Seq<char>>::empty(),
    {
        self.shortcuts.clear();
        assert(self@ =~= Seq::<Seq<char>>::empty());
        Ok(())
    }
}

} // verus!
