//! The Python templates of the runtime translation file.
use vstd::prelude::*;

verus! {

/// Ранний хук _()/translate_string — выполняется в `python early`, ДО init-фазы.
/// Нужен, т.к. image/layeredimage с Text(_("...")) (напр. вкладки меню Refuge of Embers)
/// вычисляют _() при сборке картинки на init и «запекают» результат — поздний хук (init)
/// их не перехватит. store._/__ держат прямые ссылки на translate_string (minstore),
/// поэтому переопределяем И store._/__, И атрибут модуля. Идёт под `python early:`.
pub const RENFORGE_EARLY_HOOK: &'static str = r#"    # --- Канал 6 (ранний): языконезависимая доставка _()/translate_string ---
    if _renforge_ui_map:
        try:
            _rf_store = None
            try:
                _rf_store = store
            except Exception:
                try:
                    _rf_store = renpy.store
                except Exception:
                    _rf_store = None
            _renforge_ts_orig = None
            if _rf_store is not None:
                _renforge_ts_orig = getattr(_rf_store, "_", None)
            if _renforge_ts_orig is None:
                _renforge_ts_orig = renpy.translation.translate_string
            def _renforge_translate_string(s, *args, **kwargs):
                try:
                    if s in _renforge_ui_map:
                        return _renforge_ui_map[s]
                except Exception:
                    pass
                _r = _renforge_ts_orig(s, *args, **kwargs)
                try:
                    if _r == s: _renforge_log_uncovered("ui", s)
                except Exception:
                    pass
                return _r
            if _rf_store is not None:
                try:
                    _rf_store._ = _renforge_translate_string
                except Exception:
                    pass
                try:
                    _rf_store.__ = _renforge_translate_string
                except Exception:
                    pass
            try:
                renpy.translation.translate_string = _renforge_translate_string
            except Exception:
                pass
        except Exception:
            pass
"#;

/// Рантайм-код перевода. Универсален для Ren'Py 6.x–8.x.
/// Канал 1 (диалоги/меню): config.say_menu_text_filter — перехват по тексту.
/// Канал 2 (UI): прямая запись в translator.strings[lang].translations,
///   что переопределяет даже встроенные переводы игры БЕЗ краша add().
/// Плейсхолдер {LANG} подставляется целевым языком. Шаблон разбит на три части:
/// до строки с таблицей языка, сама строка и остаток.
pub const RENFORGE_RUNTIME_HEAD: &'static str = r#"    # --- Канал 1: диалоги и меню через say_menu_text_filter ---
    def _renforge_lookup(s):
        try:
            if s in _renforge_say_map:
                return _renforge_say_map[s]
        except Exception:
            pass
        try:
            if not isinstance(s, unicode):
                us = s.decode("utf-8")
                if us in _renforge_say_map:
                    return _renforge_say_map[us]
        except Exception:
            pass
        _renforge_log_uncovered("say", s)
        return s

    try:
        _renforge_prev_filter = config.say_menu_text_filter
    except Exception:
        _renforge_prev_filter = None

    def _renforge_filter(s):
        if _renforge_prev_filter is not None:
            try:
                s = _renforge_prev_filter(s)
            except Exception:
                pass
        return _renforge_lookup(s)

    config.say_menu_text_filter = _renforge_filter

    # --- Канал 2: UI-строки через прямую инъекцию в StringTranslator ---
    def _renforge_inject_ui():
        try:
            translator = renpy.game.script.translator
        except Exception:
            return
        try:
"#;

/// The line of the channels that names the language table (`{LANG}` is the
/// target language).
pub const RENFORGE_RUNTIME_LANG_LINE: &'static str = "            stl = translator.strings[\"{LANG}\"]\n";

/// The channels after the language-table line.
pub const RENFORGE_RUNTIME_TAIL: &'static str = r#"        except Exception:
            return
        for _o, _t in _renforge_ui_map.items():
            try:
                # Прямая запись минует add() и его проверку коллизий -> без краша.
                stl.translations[_o] = _t
            except Exception:
                pass

    # Регистрируем инъекцию на момент, когда транслятор уже построен.
    try:
        _renforge_inject_ui()
    except Exception:
        pass
    try:
        config.start_callbacks.append(_renforge_inject_ui)
    except Exception:
        pass

    # --- Канал 6 (хук translate_string + store._/__) вынесен в python early ---
    # (RENFORGE_EARLY_HOOK) — иначе layeredimage/image с Text(_("...")) на init-фазе
    # вычисляют _() ДО установки хука и «запекают» оригинал.

    # --- Канал 3: промпты renpy.input (имя игрока и т.п.) ---
    # Движок не переводит сырой промпт (автор обычно без _()), поэтому оборачиваем
    # renpy.input и подменяем промпт по нашим словарям ДО подстановки [var].
    def _renforge_input_lookup(p):
        try:
            if p in _renforge_ui_map:
                return _renforge_ui_map[p]
        except Exception:
            pass
        try:
            if p in _renforge_say_map:
                return _renforge_say_map[p]
        except Exception:
            pass
        _renforge_log_uncovered("input", p)
        return p

    try:
        _renforge_input_orig = renpy.exports.input
        def _renforge_input(prompt="", *args, **kwargs):
            try:
                prompt = _renforge_input_lookup(prompt)
            except Exception:
                pass
            return _renforge_input_orig(prompt, *args, **kwargs)
        renpy.exports.input = _renforge_input
        renpy.input = _renforge_input
    except Exception:
        pass

    # --- Канал 5: легаси SL1-UI через обёртку renpy.ui.text ---
    # Древние движки (6.12–6.17) НЕ имеют фреймворка переводов: модуль
    # renpy.translation отсутствует, translator.strings недоступен, поэтому
    # Канал 2 на них мёртв. Текст экранов там рисуется прямым вызовом ui.text(...),
    # а ui.textbutton/ui.label внутри зовут тот же глобальный text(). Подменяем
    # первый строковый аргумент по _renforge_ui_map — полностью языконезависимо
    # и без зависимости от системы переводов. На современных движках безвредно
    # (точное совпадение оригинала; SL2-экраны идут своим путём).
    try:
        _rf_strtypes = (str, unicode)
    except NameError:
        _rf_strtypes = (str,)

    def _renforge_ui_text_lookup(s):
        try:
            if isinstance(s, _rf_strtypes) and s in _renforge_ui_map:
                return _renforge_ui_map[s]
        except Exception:
            pass
        _renforge_log_uncovered("uitext", s)
        return s

    try:
        import renpy.ui as _rf_ui_mod
        if _renforge_ui_map:
            _renforge_ui_text_orig = _rf_ui_mod.text
            def _renforge_ui_text(s=None, *args, **kwargs):
                return _renforge_ui_text_orig(_renforge_ui_text_lookup(s), *args, **kwargs)
            _rf_ui_mod.text = _renforge_ui_text
    except Exception:
        pass
"#;

/// Диагностика покрытия (opt-in): no-op заглушка `_renforge_log_uncovered`. Шаблоны каналов
/// всегда зовут её на промахах; когда диагностика выключена — она ничего не делает.
pub const RENFORGE_LOG_NOOP: &'static str = "    def _renforge_log_uncovered(chan, s):\n        pass\n";

/// Диагностика покрытия (opt-in): реальный логгер. На промахе канала пишет строку (с дедупом
/// в рамках сессии) в `<basedir>/renforge_uncovered.log` как `chan\t<escaped>`. RenForge затем
/// сверяет лог с БД и показывает, что видно в игре, но не покрыто. Всё в try/except — не падает.
pub const RENFORGE_LOG_DIAG: &'static str = r#"    # --- Диагностика покрытия: лог непокрытого текста ---
    _renforge_uncov_seen = set()
    def _renforge_log_uncovered(chan, s):
        try:
            _st = (str, unicode)
        except NameError:
            _st = (str,)
        try:
            if not isinstance(s, _st) or not s:
                return
            _k = (chan, s)
            if _k in _renforge_uncov_seen:
                return
            _renforge_uncov_seen.add(_k)
            _e = s.replace("\\", "\\\\").replace("\n", "\\n").replace("\r", "\\r").replace("\t", "\\t")
            import os as _os
            _p = _os.path.join(config.basedir, "renforge_uncovered.log")
            _f = open(_p, "ab")
            _f.write((chan + "\t" + _e + "\n").encode("utf-8"))
            _f.close()
        except Exception:
            pass
"#;

/// API для пользовательских хуков, доступный в фазе `python early` (словари уже определены).
pub const RENFORGE_HOOK_API_EARLY: &'static str = r#"    # --- RenForge: API для пользовательских хуков ---
    def renforge_tr(s):
        try:
            if s in _renforge_ui_map: return _renforge_ui_map[s]
            if s in _renforge_say_map: return _renforge_say_map[s]
        except Exception:
            pass
        return s
    def renforge_add(orig, tran, ui=True):
        try:
            (_renforge_ui_map if ui else _renforge_say_map)[orig] = tran
        except Exception:
            pass
"#;

/// API обёрток, доступный в фазе `init 1000` (renpy/config/_rf_strtypes уже готовы).
pub const RENFORGE_HOOK_API_INIT: &'static str = r#"    # --- RenForge: API обёрток для пользовательских хуков ---
    def _rf_resolve(dotted):
        parts = dotted.split(".")
        if parts[0] == "renpy":
            obj = renpy; chain = parts[1:]
        elif parts[0] == "store":
            obj = renpy.store; chain = parts[1:]
        else:
            obj = renpy.store; chain = parts
        parent = None; attr = None
        for p in chain:
            parent = obj; attr = p; obj = getattr(obj, p)
        return parent, attr, obj
    def renforge_wrap(dotted, arg=0):
        try:
            parent, attr, fn = _rf_resolve(dotted)
            if getattr(fn, "_renforge_wrapped", False): return True
            def _w(*a, **k):
                a = list(a)
                try:
                    if len(a) > arg and isinstance(a[arg], _rf_strtypes):
                        a[arg] = renforge_tr(a[arg])
                except Exception:
                    pass
                return fn(*a, **k)
            try: _w._renforge_wrapped = True
            except Exception: pass
            setattr(parent, attr, _w)
            return True
        except Exception:
            return False
    def renforge_wrap_ret(dotted):
        try:
            parent, attr, fn = _rf_resolve(dotted)
            def _w(*a, **k):
                r = fn(*a, **k)
                try:
                    if isinstance(r, _rf_strtypes): return renforge_tr(r)
                except Exception:
                    pass
                return r
            setattr(parent, attr, _w)
            return True
        except Exception:
            return False
    def renforge_filter(func):
        try:
            _prev = config.say_menu_text_filter
            def _chain(s):
                if _prev is not None:
                    try: s = _prev(s)
                    except Exception: pass
                try: return func(s)
                except Exception: return s
            config.say_menu_text_filter = _chain
        except Exception:
            pass
"#;


/// The head of the game patch, up to the target language: it resets, before the
/// game's own init code runs, a saved language that the game does not know.
pub const PATCH_HEAD_OPEN: &'static str = r#"
init -999 python:
    # Санация языка ДО init-кода игры (приоритет 0). Прошлые версии патча могли
    # записать в persistent _preferences.language язык, которого игра не знает
    # (напр. "russian" у ES) — её init-код индексирует словари по языку и падает
    # KeyError ещё до нашего init 999. Сбрасываем неизвестный язык на дефолт (None);
    # доставка языконезависима (say-filter / ui.text / translate_string), так что
    # дефолтный язык ничего не ломает. Самовосстанавливает уже отравленные сохранения.
    try:
        _rf_cur = getattr(store._preferences, "language", None)
        if _rf_cur is not None:
            try:
                _rf_known = renpy.known_languages()
            except:
                _rf_known = None
            if _rf_known is not None:
                _rf_bad = _rf_cur not in _rf_known
            else:
                _rf_bad = (_rf_cur == ""#;

/// The rest of the head of the game patch, after the target language.
pub const PATCH_HEAD_CLOSE: &'static str = r#"")
            if _rf_bad:
                store._preferences.language = None
    except:
        pass
"#;

/// The opening of the per-font render remap block, up to its map lines.
pub const FONT_MAP_OPEN: &'static str = r#"
    # --- Поштучный ремап шрифтов на уровне рендера (каждый -> свой) ---
    _renforge_font_map = {
"#;

/// The closing of the per-font render remap block, after its map lines.
pub const FONT_MAP_CLOSE: &'static str = r#"    }
    try:
        for _src, _dst in _renforge_font_map.items():
            for _b in (False, True):
                for _i in (False, True):
                    config.font_replacement_map[(_src, _b, _i)] = (_dst, _b, _i)
    except: pass
"#;

} // verus!
