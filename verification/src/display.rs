use vstd::prelude::*;
use vstd::string::*;
use crate::config::Config;
use crate::window::WindowData;

verus! {

/// A character the status bar renders with a fixed advance width:
/// printable ASCII, space through tilde.
pub open spec fn is_visible_char(c: char) -> bool {
    32 <= c as u32 <= 126
}

/// Markup-safe: neither of the two angle brackets.
pub open spec fn is_markup_safe_char(c: char) -> bool {
    c != '<' && c != '>'
}

/// The text with every non-printable-ASCII character discarded.
pub open spec fn visible_chars(s: Seq<char>) -> Seq<char> {
    s.filter(|c: char| is_visible_char(c))
}

/// The text with every literal angle bracket discarded.
pub open spec fn sanitized(s: Seq<char>) -> Seq<char> {
    s.filter(|c: char| is_markup_safe_char(c))
}

/// Relies on String::push: it appends exactly the one character.
#[verifier::external_body]
fn push_char(s: &mut String, c: char)
    ensures
        final(s)@ == old(s)@.push(c),
{
    s.push(c)
}

/// Keep only the characters the target surface renders with a fixed
/// advance width, so padding arithmetic cannot be inflated.
fn filter_visible(s: &str) -> (r: String)
    ensures
        r@ == visible_chars(s@),
{
    let ghost pred = |c: char| is_visible_char(c);
    let n = s.unicode_len();
    let mut r = String::new();
    let mut i: usize = 0;
    while i < n
        invariant
            i <= n,
            n == s@.len(),
            pred == (|c: char| is_visible_char(c)),
            r@ == s@.take(i as int).filter(pred),
        decreases n - i,
    {
        let c = s.get_char(i);
        proof {
            reveal(Seq::filter);
            assert(s@.take(i + 1).drop_last() =~= s@.take(i as int));
            assert(s@.take(i + 1).last() == c);
        }
        let u = c as u32;
        if 32 <= u && u <= 126 {
            push_char(&mut r, c);
        }
        i += 1;
    }
    proof {
        assert(s@.take(n as int) =~= s@);
    }
    r
}

impl WindowData {
    /// Strip the two markup-structural characters from window-sourced text,
    /// so that a title cannot inject tags into the output line.
    pub fn sanitize_text(text: &str) -> (r: String)
        ensures
            r@ == sanitized(text@),
    {
        let ghost pred = |c: char| is_markup_safe_char(c);
        let n = text.unicode_len();
        let mut r = String::new();
        let mut i: usize = 0;
        while i < n
            invariant
                i <= n,
                n == text@.len(),
                pred == (|c: char| is_markup_safe_char(c)),
                r@ == text@.take(i as int).filter(pred),
            decreases n - i,
        {
            let c = text.get_char(i);
            proof {
                reveal(Seq::filter);
                assert(text@.take(i + 1).drop_last() =~= text@.take(i as int));
                assert(text@.take(i + 1).last() == c);
            }
            if !(c == '<' || c == '>') {
                push_char(&mut r, c);
            }
            i += 1;
        }
        proof {
            assert(text@.take(n as int) =~= text@);
        }
        r
    }
}

/// The title with its trailing " - {app_name}" suffix removed when it is
/// present, exact match only.
pub open spec fn appless_title(title: Seq<char>, app: Seq<char>) -> Seq<char> {
    let pat = " - "@ + app;
    if pat.len() <= title.len()
        && title.subrange(title.len() - pat.len(), title.len() as int) == pat {
        title.take(title.len() - pat.len())
    } else {
        title
    }
}

/// The raw body of one window before width handling: the app name, a
/// colon separator, and the suffix-stripped title.
pub open spec fn window_body(title: Seq<char>, app: Seq<char>) -> Seq<char> {
    app + ": "@ + appless_title(title, app)
}

/// `n` space characters.
pub open spec fn spaces(n: int) -> Seq<char>
    decreases n,
{
    if n <= 0 {
        Seq::empty()
    } else {
        spaces(n - 1).push(' ')
    }
}

/// The visible body fitted to the budget: over-long text is cut to
/// `width - 3` characters and given an ellipsis; shorter text is centred
/// between two equal floor'd runs of spaces, any odd leftover dropped.
pub open spec fn fitted(visible: Seq<char>, width: int) -> Seq<char> {
    if visible.len() > width {
        visible.take(width - 3) + "..."@
    } else {
        let pad = (width - visible.len()) / 2;
        spaces(pad) + visible + spaces(pad)
    }
}

/// The finished per-window body: the visible characters of the raw body,
/// fitted to the budget, sanitized, and bold-wrapped for the active window.
pub open spec fn formatted_body(title: Seq<char>, app: Seq<char>, active: bool, width: int)
    -> Seq<char> {
    let t = sanitized(fitted(visible_chars(window_body(title, app)), width));
    if active {
        "<b>"@ + t + "</b>"@
    } else {
        t
    }
}

/// The background colour the window is styled with.
pub open spec fn background_of(w: WindowData, cfg: Config) -> Seq<char> {
    if w.active {
        cfg.active_background_color@
    } else {
        cfg.background_color@
    }
}

/// One window's finished span: the body wrapped in fixed-width markup
/// carrying the configured line height and background colour.
pub open spec fn decorated(w: WindowData, cfg: Config, width: int) -> Seq<char> {
    "<tt><span line_height=\""@ + cfg.line_height@ + "\" background=\""@
        + background_of(w, cfg) + "\"> "@
        + formatted_body(w.title@, w.app_name@, w.active, width) + " </span></tt>"@
}

/// The parts joined with the separator between neighbours.
pub open spec fn joined(parts: Seq<Seq<char>>, sep: Seq<char>) -> Seq<char>
    decreases parts.len(),
{
    if parts.len() == 0 {
        Seq::empty()
    } else if parts.len() == 1 {
        parts[0]
    } else {
        joined(parts.drop_last(), sep) + sep + parts.last()
    }
}

/// The per-window character budget: what the separators leave of the
/// configured width, shared evenly, floor'd.
pub open spec fn per_window_width(cfg: Config, n: int) -> int {
    (cfg.width - cfg.separator@.len() * (n - 1)) / n
}

/// The minimum width the layout needs: room for every separator and a
/// three-character ellipsis per window.
pub open spec fn width_fits(cfg: Config, n: int) -> bool {
    cfg.separator@.len() * (n - 1) + 3 * n <= cfg.width
}

/// The whole line for a non-empty snapshot.
pub open spec fn line_of(windows: Seq<WindowData>, cfg: Config) -> Seq<char> {
    joined(
        windows.map_values(
            |w: WindowData| decorated(w, cfg, per_window_width(cfg, windows.len() as int)),
        ),
        cfg.separator@,
    )
}

/// Remove one trailing " - {app}" from `title` when it ends with it.
fn strip_app_suffix(title: &str, app: &str) -> (r: String)
    ensures
        r@ == appless_title(title@, app@),
{
    proof {
        reveal_strlit(" - ");
    }
    let ghost pat = " - "@ + app@;
    let tl = title.unicode_len();
    let al = app.unicode_len();
    if tl >= 3 && tl - 3 >= al {
        let base = tl - 3 - al;
        let c0 = title.get_char(base);
        let c1 = title.get_char(base + 1);
        let c2 = title.get_char(base + 2);
        let mut is_suffix = c0 == ' ' && c1 == '-' && c2 == ' ';
        proof {
            let sr = title@.subrange(base as int, tl as int);
            assert(sr[0] == c0 && sr[1] == c1 && sr[2] == c2);
            assert(pat[0] == ' ' && pat[1] == '-' && pat[2] == ' ');
        }
        let mut j: usize = 0;
        while j < al && is_suffix
            invariant
                j <= al,
                tl == title@.len(),
                al == app@.len(),
                tl - 3 >= al,
                base == tl - 3 - al,
                is_suffix ==> title@[base as int] == ' ' && title@[base + 1] == '-'
                    && title@[base + 2] == ' ',
                is_suffix ==> forall|k: int| 0 <= k < j ==> title@[base + 3 + k] == app@[k],
                !is_suffix ==> title@.subrange(base as int, tl as int) != " - "@ + app@,
            decreases al - j, (if is_suffix { 1int } else { 0int }),
        {
            if title.get_char(base + 3 + j) != app.get_char(j) {
                proof {
                    reveal_strlit(" - ");
                    let p = " - "@ + app@;
                    assert(p[3 + j] == app@[j as int]);
                    assert(title@.subrange(base as int, tl as int)[3 + j] != p[3 + j]);
                }
                is_suffix = false;
            } else {
                j += 1;
            }
        }
        if is_suffix {
            proof {
                assert(title@.subrange(base as int, tl as int) =~= " - "@ + app@);
            }
            let kept = title.substring_char(0, base);
            kept.to_owned()
        } else {
            title.to_owned()
        }
    } else {
        proof {
            assert(pat.len() > title@.len());
        }
        title.to_owned()
    }
}

/// Append `n` spaces.
fn push_spaces(s: &mut String, n: usize)
    ensures
        final(s)@ == old(s)@ + spaces(n as int),
{
    let mut i: usize = 0;
    while i < n
        invariant
            i <= n,
            s@ == old(s)@ + spaces(i as int),
        decreases n - i,
    {
        push_char(s, ' ');
        proof {
            assert((old(s)@ + spaces(i as int)).push(' ') =~= old(s)@ + spaces(i + 1));
        }
        i += 1;
    }
}

/// Fit the visible text to the budget: truncate with an ellipsis, or
/// centre with equal padding.
fn fit_text(visible: &str, width: usize) -> (r: String)
    requires
        width >= 3,
    ensures
        r@ == fitted(visible@, width as int),
{
    let vl = visible.unicode_len();
    if vl > width {
        let kept = visible.substring_char(0, width - 3);
        let mut r = kept.to_owned();
        r.append("...");
        r
    } else {
        let pad = (width - vl) / 2;
        let mut r = String::new();
        push_spaces(&mut r, pad);
        r.append(visible);
        push_spaces(&mut r, pad);
        proof {
            assert(r@ =~= spaces(pad as int) + visible@ + spaces(pad as int));
        }
        r
    }
}

impl WindowData {
    /// The window's body text fitted to `width` visible characters,
    /// sanitized, and bold-wrapped when the window is active.
    pub fn display_formatted_text(&self, width: usize) -> (r: String)
        requires
            width >= 3,
        ensures
            r@ == formatted_body(self.title@, self.app_name@, self.active, width as int),
    {
        let stripped = strip_app_suffix(self.title.as_str(), self.app_name.as_str());
        let mut body = String::new();
        body.append(self.app_name.as_str());
        body.append(": ");
        body.append(stripped.as_str());
        proof {
            assert(body@ =~= window_body(self.title@, self.app_name@));
        }
        let visible = filter_visible(body.as_str());
        let fit = fit_text(visible.as_str(), width);
        let clean = WindowData::sanitize_text(fit.as_str());
        if self.active {
            let mut r = String::new();
            r.append("<b>");
            r.append(clean.as_str());
            r.append("</b>");
            proof {
                assert(r@ =~= formatted_body(self.title@, self.app_name@, true, width as int));
            }
            r
        } else {
            clean
        }
    }

    /// The background colour for this window, from the configuration.
    pub fn display_background_color(&self, config: &Config) -> (r: String)
        ensures
            r@ == background_of(*self, *config),
    {
        if self.active {
            config.active_background_color.clone()
        } else {
            config.background_color.clone()
        }
    }

    /// The window's finished span: the formatted body wrapped in the
    /// fixed-width markup with line height and background colour.
    pub fn as_display_str(&self, config: &Config, width: usize) -> (r: String)
        requires
            width >= 3,
        ensures
            r@ == decorated(*self, *config, width as int),
    {
        let body = self.display_formatted_text(width);
        let color = self.display_background_color(config);
        let mut r = String::new();
        r.append("<tt><span line_height=\"");
        r.append(config.line_height.as_str());
        r.append("\" background=\"");
        r.append(color.as_str());
        r.append("\"> ");
        r.append(body.as_str());
        r.append(" </span></tt>");
        proof {
            assert(r@ =~= decorated(*self, *config, width as int));
        }
        r
    }
}

/// Render the whole snapshot as one line: the empty text for an empty
/// workspace, otherwise every window's span joined with the separator.
pub fn format_line(windows: &Vec<WindowData>, config: &Config) -> (r: String)
    requires
        windows@.len() > 0 ==> width_fits(*config, windows@.len() as int),
    ensures
        windows@.len() == 0 ==> r@ == config.empty_text@,
        windows@.len() > 0 ==> r@ == line_of(windows@, *config),
{
    let n = windows.len();
    if n == 0 {
        return config.empty_text.clone();
    }
    let sep_len = config.separator.as_str().unicode_len();
    let available = config.width - sep_len * (n - 1);
    let width = available / n;
    proof {
        assert(available >= 3 * n);
        assert(width >= 3) by (nonlinear_arith)
            requires
                available >= 3 * n,
                n > 0,
                width == available / n,
        ;
        assert(width as int == per_window_width(*config, n as int));
    }
    let ghost parts = windows@.map_values(
        |w: WindowData| decorated(w, *config, per_window_width(*config, windows@.len() as int)),
    );
    let mut line = String::new();
    let mut i: usize = 0;
    while i < n
        invariant
            0 < n == windows@.len(),
            i <= n,
            width as int == per_window_width(*config, n as int),
            width >= 3,
            parts == windows@.map_values(
                |w: WindowData| decorated(w, *config, per_window_width(*config, n as int)),
            ),
            line@ == joined(parts.take(i as int), config.separator@),
        decreases n - i,
    {
        if i > 0 {
            line.append(config.separator.as_str());
        }
        let span = windows[i].as_display_str(config, width);
        line.append(span.as_str());
        proof {
            assert(parts.take(i + 1).drop_last() =~= parts.take(i as int));
            assert(parts.take(i + 1).last() == parts[i as int]);
            assert(parts[i as int] == decorated(
                windows@[i as int],
                *config,
                per_window_width(*config, n as int),
            ));
            if i == 0 {
                assert(joined(parts.take(1), config.separator@) == parts[0]);
                assert(line@ =~= parts[0]);
            } else {
                assert(joined(parts.take(i + 1), config.separator@) == joined(
                    parts.take(i as int),
                    config.separator@,
                ) + config.separator@ + parts[i as int]);
            }
        }
        i += 1;
    }
    proof {
        assert(parts.take(n as int) =~= parts);
    }
    line
}

/// `format_line` behind its own width test: `None` exactly when the
/// configured width cannot hold the separators and a minimal body for
/// this many windows, the formatted line otherwise.
pub fn format_line_checked(windows: &Vec<WindowData>, config: &Config) -> (r: Option<String>)
    ensures
        r is Some <==> (windows@.len() == 0 || width_fits(*config, windows@.len() as int)),
        r matches Some(s) ==> (windows@.len() == 0 ==> s@ == config.empty_text@)
            && (windows@.len() > 0 ==> s@ == line_of(windows@, *config)),
{
    let n = windows.len();
    if n == 0 {
        return Some(format_line(windows, config));
    }
    let sep_len = config.separator.as_str().unicode_len();
    let fits = match (sep_len.checked_mul(n - 1), n.checked_mul(3)) {
        (Some(sep_total), Some(three_n)) => match sep_total.checked_add(three_n) {
            Some(total) => total <= config.width,
            None => false,
        },
        _ => false,
    };
    if fits {
        Some(format_line(windows, config))
    } else {
        None
    }
}

proof fn lemma_visible_chars_keep_property(s: Seq<char>)
    requires
        forall|i: int| 0 <= i < s.len() ==> is_markup_safe_char(#[trigger] s[i]),
    ensures
        forall|i: int| 0 <= i < visible_chars(s).len()
            ==> is_markup_safe_char(#[trigger] visible_chars(s)[i]),
    decreases s.len(),
{
    reveal(Seq::filter);
    if s.len() > 0 {
        lemma_visible_chars_keep_property(s.drop_last());
        assert(forall|i: int| 0 <= i < s.drop_last().len()
            ==> is_markup_safe_char(#[trigger] s.drop_last()[i]));
        let v = visible_chars(s);
        let w = visible_chars(s.drop_last());
        assert forall|i: int| 0 <= i < v.len() implies is_markup_safe_char(v[i]) by {
            if i < w.len() {
                assert(v[i] == w[i]);
            }
        }
    }
}

proof fn lemma_sanitized_identity(s: Seq<char>)
    requires
        forall|i: int| 0 <= i < s.len() ==> is_markup_safe_char(#[trigger] s[i]),
    ensures
        sanitized(s) == s,
    decreases s.len(),
{
    reveal(Seq::filter);
    if s.len() > 0 {
        lemma_sanitized_identity(s.drop_last());
        assert(forall|i: int| 0 <= i < s.drop_last().len()
            ==> is_markup_safe_char(#[trigger] s.drop_last()[i]));
        assert(sanitized(s) =~= s);
    }
}

/// Law: one visible character over the budget truncates the body to
/// `width - 3` characters plus the ellipsis; for a body free of angle
/// brackets, sanitization keeps that shape, so the emitted body is
/// exactly `width` characters. With a bracket among the kept
/// characters, sanitization removes it and the result falls below the
/// budget, which the budget laws still bound from above.
pub proof fn lemma_truncation_boundary(title: Seq<char>, app: Seq<char>, width: int)
    requires
        width >= 3,
        visible_chars(window_body(title, app)).len() == width + 1,
        forall|i: int| 0 <= i < window_body(title, app).len()
            ==> is_markup_safe_char(#[trigger] window_body(title, app)[i]),
    ensures
        sanitized(fitted(visible_chars(window_body(title, app)), width)) == visible_chars(
            window_body(title, app),
        ).take(width - 3) + "..."@,
        sanitized(fitted(visible_chars(window_body(title, app)), width)).len() == width,
{
    reveal_strlit("...");
    let body = window_body(title, app);
    let vis = visible_chars(body);
    lemma_visible_chars_keep_property(body);
    let cut = vis.take(width - 3) + "..."@;
    assert(fitted(vis, width) == cut);
    assert forall|i: int| 0 <= i < cut.len() implies is_markup_safe_char(#[trigger] cut[i]) by {
        if i < width - 3 {
            assert(cut[i] == vis[i]);
        } else {
            assert(cut[i] == '.');
        }
    }
    lemma_sanitized_identity(cut);
}

/// An upper bound on what the markup wrapping may add around one body:
/// the fixed tags, the line-height value, the wider of the two colour
/// values, and the bold tags of an active window.
pub open spec fn per_window_markup_overhead(cfg: Config) -> int {
    60 + cfg.line_height@.len() + (if cfg.background_color@.len()
        >= cfg.active_background_color@.len() {
        cfg.background_color@.len() as int
    } else {
        cfg.active_background_color@.len() as int
    })
}

proof fn lemma_spaces_len(n: int)
    ensures
        spaces(n).len() == (if n <= 0 { 0int } else { n }),
    decreases n,
{
    if n > 0 {
        lemma_spaces_len(n - 1);
    }
}

/// Fitting never exceeds the budget: a truncated body is exactly the
/// budget, a padded one at most it.
pub proof fn lemma_fitted_len(visible: Seq<char>, width: int)
    requires
        width >= 3,
    ensures
        fitted(visible, width).len() <= width,
{
    reveal_strlit("...");
    if visible.len() <= width {
        lemma_spaces_len((width - visible.len()) / 2);
    }
}

/// Law: a window's body as emitted never exceeds the per-window budget
/// in visible characters, after sanitization.
pub proof fn lemma_body_within_budget(title: Seq<char>, app: Seq<char>, width: int)
    requires
        width >= 3,
    ensures
        sanitized(fitted(visible_chars(window_body(title, app)), width)).len() <= width,
{
    broadcast use vstd::seq_lib::group_filter_ensures;

    lemma_fitted_len(visible_chars(window_body(title, app)), width);
}

proof fn lemma_decorated_len(w: WindowData, cfg: Config, width: int)
    requires
        width >= 3,
    ensures
        decorated(w, cfg, width).len() <= width + per_window_markup_overhead(cfg),
{
    reveal_strlit("<tt><span line_height=\"");
    reveal_strlit("\" background=\"");
    reveal_strlit("\"> ");
    reveal_strlit(" </span></tt>");
    reveal_strlit("<b>");
    reveal_strlit("</b>");
    lemma_body_within_budget(w.title@, w.app_name@, width);
}

proof fn lemma_joined_len(parts: Seq<Seq<char>>, sep: Seq<char>, cap: int)
    requires
        parts.len() >= 1,
        forall|i: int| 0 <= i < parts.len() ==> (#[trigger] parts[i]).len() <= cap,
    ensures
        joined(parts, sep).len() <= parts.len() * cap + sep.len() * (parts.len() - 1),
    decreases parts.len(),
{
    let n = parts.len() as int;
    if n == 1 {
        assert(parts[0].len() <= cap);
    } else {
        lemma_joined_len(parts.drop_last(), sep, cap);
        assert(parts.last().len() <= cap);
        assert((n - 1) * cap + cap == n * cap) by (nonlinear_arith);
        assert(sep.len() * (n - 2) + sep.len() == sep.len() * (n - 1)) by (nonlinear_arith);
    }
}

/// Law: the whole formatted line never exceeds the configured width plus
/// the markup overhead of its windows.
pub proof fn lemma_line_within_budget(windows: Seq<WindowData>, cfg: Config)
    requires
        windows.len() > 0,
        width_fits(cfg, windows.len() as int),
    ensures
        line_of(windows, cfg).len() <= cfg.width + windows.len() * per_window_markup_overhead(
            cfg,
        ),
{
    let n = windows.len() as int;
    let avail = cfg.width - cfg.separator@.len() * (n - 1);
    let pw = per_window_width(cfg, n);
    let overhead = per_window_markup_overhead(cfg);
    assert(pw >= 3) by (nonlinear_arith)
        requires
            avail >= 3 * n,
            n > 0,
            pw == avail / n,
    ;
    let parts = windows.map_values(|w: WindowData| decorated(w, cfg, pw));
    assert forall|i: int| 0 <= i < parts.len() implies (#[trigger] parts[i]).len() <= pw
        + overhead by {
        lemma_decorated_len(windows[i], cfg, pw);
    }
    lemma_joined_len(parts, cfg.separator@, pw + overhead);
    assert(n * pw <= avail) by (nonlinear_arith)
        requires
            n > 0,
            avail >= 0,
            pw == avail / n,
    ;
    assert(n * (pw + overhead) == n * pw + n * overhead) by (nonlinear_arith);
}

/// No angle bracket survives sanitization: the formatter's output body
/// cannot carry markup structure taken from a window title.
pub proof fn lemma_sanitized_has_no_angle_brackets(s: Seq<char>)
    ensures
        forall|i: int| 0 <= i < sanitized(s).len()
            ==> sanitized(s)[i] != '<' && sanitized(s)[i] != '>',
{
    broadcast use vstd::seq_lib::group_filter_ensures;

    assert forall|i: int| 0 <= i < sanitized(s).len()
        implies sanitized(s)[i] != '<' && sanitized(s)[i] != '>' by {
        assert(is_markup_safe_char(sanitized(s)[i]));
    }
}

} // verus!
