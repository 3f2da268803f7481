//! Interface texts in Russian and English.
//!
//! Every text of the interface is a method of `Language`; each states in its
//! contract the exact text it gives for each language.
use vstd::prelude::*;

verus! {

/// The language of the interface.
#[derive(Debug, Clone, Copy, PartialEq, Eq, Structural)]
pub enum Language {
    Ru,
    En,
}

/// The character of a decimal digit.
pub open spec fn digit_char(d: nat) -> char {
    if d == 0 { '0' } else if d == 1 { '1' } else if d == 2 { '2' } else if d == 3 { '3' }
    else if d == 4 { '4' } else if d == 5 { '5' } else if d == 6 { '6' } else if d == 7 { '7' }
    else if d == 8 { '8' } else { '9' }
}

/// The decimal notation of a natural number, without leading zeros.
pub open spec fn decimal(n: nat) -> Seq<char>
    decreases n,
{
    if n < 10 {
        seq![digit_char(n)]
    } else {
        decimal(n / 10).push(digit_char(n % 10))
    }
}

fn digit_str(d: usize) -> (r: &'static str)
    requires
        d < 10,
    ensures
        r@ == seq![digit_char(d as nat)],
{
    proof {
        reveal_strlit("0");
        reveal_strlit("1");
        reveal_strlit("2");
        reveal_strlit("3");
        reveal_strlit("4");
        reveal_strlit("5");
        reveal_strlit("6");
        reveal_strlit("7");
        reveal_strlit("8");
        reveal_strlit("9");
    }
    if d == 0 { "0" } else if d == 1 { "1" } else if d == 2 { "2" } else if d == 3 { "3" }
    else if d == 4 { "4" } else if d == 5 { "5" } else if d == 6 { "6" } else if d == 7 { "7" }
    else if d == 8 { "8" } else { "9" }
}

/// The decimal notation of `n`, as `format!("{}", n)` writes it.
pub fn decimal_string(n: usize) -> (r: String)
    ensures
        r@ == decimal(n as nat),
    decreases n,
{
    if n < 10 {
        String::from_str(digit_str(n))
    } else {
        let mut s = decimal_string(n / 10);
        s.append(digit_str(n % 10));
        s
    }
}

impl Language {
    pub fn tab_builder(&self) -> (r: &'static str)
        ensures
            r@ == (match *self {
                Language::Ru => "🕸 Конструктор"@,
                Language::En => "🕸 Flowchart"@,
            }),
    {
        match self {
            Language::Ru => "🕸 Конструктор",
            Language::En => "🕸 Flowchart",
        }
    }

    pub fn tab_runner(&self) -> (r: &'static str)
        ensures
            r@ == (match *self {
                Language::Ru => "▶ Диагностика"@,
                Language::En => "▶ Diagnostics"@,
            }),
    {
        match self {
            Language::Ru => "▶ Диагностика",
            Language::En => "▶ Diagnostics",
        }
    }

    pub fn tab_archive(&self) -> (r: &'static str)
        ensures
            r@ == (match *self {
                Language::Ru => "📚 База регламентов"@,
                Language::En => "📚 Procedures"@,
            }),
    {
        match self {
            Language::Ru => "📚 База регламентов",
            Language::En => "📚 Procedures",
        }
    }

    pub fn btn_new(&self) -> (r: &'static str)
        ensures
            r@ == (match *self {
                Language::Ru => "📄 Новый"@,
                Language::En => "📄 New"@,
            }),
    {
        match self {
            Language::Ru => "📄 Новый",
            Language::En => "📄 New",
        }
    }

    pub fn btn_save(&self) -> (r: &'static str)
        ensures
            r@ == (match *self {
                Language::Ru => "💾 Сохранить"@,
                Language::En => "💾 Save"@,
            }),
    {
        match self {
            Language::Ru => "💾 Сохранить",
            Language::En => "💾 Save",
        }
    }

    pub fn btn_passport(&self) -> (r: &'static str)
        ensures
            r@ == (match *self {
                Language::Ru => "📋 Паспорт"@,
                Language::En => "📋 Passport"@,
            }),
    {
        match self {
            Language::Ru => "📋 Паспорт",
            Language::En => "📋 Passport",
        }
    }

    pub fn btn_undo(&self) -> (r: &'static str)
        ensures
            r@ == (match *self {
                Language::Ru => "Отменить (Ctrl+Z)"@,
                Language::En => "Undo (Ctrl+Z)"@,
            }),
    {
        match self {
            Language::Ru => "Отменить (Ctrl+Z)",
            Language::En => "Undo (Ctrl+Z)",
        }
    }

    pub fn btn_redo(&self) -> (r: &'static str)
        ensures
            r@ == (match *self {
                Language::Ru => "Повторить (Ctrl+Y)"@,
                Language::En => "Redo (Ctrl+Y)"@,
            }),
    {
        match self {
            Language::Ru => "Повторить (Ctrl+Y)",
            Language::En => "Redo (Ctrl+Y)",
        }
    }

    pub fn btn_search(&self) -> (r: &'static str)
        ensures
            r@ == (match *self {
                Language::Ru => "🔍 Поиск (Ctrl+F)"@,
                Language::En => "🔍 Search (Ctrl+F)"@,
            }),
    {
        match self {
            Language::Ru => "🔍 Поиск (Ctrl+F)",
            Language::En => "🔍 Search (Ctrl+F)",
        }
    }

    pub fn btn_export_png(&self) -> (r: &'static str)
        ensures
            r@ == (match *self {
                Language::Ru => "📷 Экспорт PNG"@,
                Language::En => "📷 Export PNG"@,
            }),
    {
        match self {
            Language::Ru => "📷 Экспорт PNG",
            Language::En => "📷 Export PNG",
        }
    }

    pub fn add_block(&self) -> (r: &'static str)
        ensures
            r@ == (match *self {
                Language::Ru => "➕ Добавить блок"@,
                Language::En => "➕ Add Step"@,
            }),
    {
        match self {
            Language::Ru => "➕ Добавить блок",
            Language::En => "➕ Add Step",
        }
    }

    pub fn fit_view(&self) -> (r: &'static str)
        ensures
            r@ == (match *self {
                Language::Ru => "🔍 Вписать всё"@,
                Language::En => "🔍 Fit View"@,
            }),
    {
        match self {
            Language::Ru => "🔍 Вписать всё",
            Language::En => "🔍 Fit View",
        }
    }

    pub fn zoom_in_tip(&self) -> (r: &'static str)
        ensures
            r@ == (match *self {
                Language::Ru => "Приблизить"@,
                Language::En => "Zoom In"@,
            }),
    {
        match self {
            Language::Ru => "Приблизить",
            Language::En => "Zoom In",
        }
    }

    pub fn zoom_out_tip(&self) -> (r: &'static str)
        ensures
            r@ == (match *self {
                Language::Ru => "Отдалить"@,
                Language::En => "Zoom Out"@,
            }),
    {
        match self {
            Language::Ru => "Отдалить",
            Language::En => "Zoom Out",
        }
    }

    pub fn zoom_reset_tip(&self) -> (r: &'static str)
        ensures
            r@ == (match *self {
                Language::Ru => "Сбросить масштаб на 100%"@,
                Language::En => "Reset zoom to 100%"@,
            }),
    {
        match self {
            Language::Ru => "Сбросить масштаб на 100%",
            Language::En => "Reset zoom to 100%",
        }
    }

    pub fn tolerance_prefix(&self) -> (r: &'static str)
        ensures
            r@ == (match *self {
                Language::Ru => "Допуск:"@,
                Language::En => "Tolerance:"@,
            }),
    {
        match self {
            Language::Ru => "Допуск:",
            Language::En => "Tolerance:",
        }
    }

    pub fn untitled(&self) -> (r: &'static str)
        ensures
            r@ == (match *self {
                Language::Ru => "Без названия"@,
                Language::En => "Untitled"@,
            }),
    {
        match self {
            Language::Ru => "Без названия",
            Language::En => "Untitled",
        }
    }

    pub fn equipment_catalog(&self) -> (r: &'static str)
        ensures
            r@ == (match *self {
                Language::Ru => "Каталог оборудования:"@,
                Language::En => "Equipment Catalog:"@,
            }),
    {
        match self {
            Language::Ru => "Каталог оборудования:",
            Language::En => "Equipment Catalog:",
        }
    }

    pub fn model_prefix(&self) -> (r: &'static str)
        ensures
            r@ == (match *self {
                Language::Ru => "Модель:"@,
                Language::En => "Model:"@,
            }),
    {
        match self {
            Language::Ru => "Модель:",
            Language::En => "Model:",
        }
    }

    pub fn inv_prefix(&self) -> (r: &'static str)
        ensures
            r@ == (match *self {
                Language::Ru => "Инв. №:"@,
                Language::En => "Inv. #:"@,
            }),
    {
        match self {
            Language::Ru => "Инв. №:",
            Language::En => "Inv. #:",
        }
    }

    pub fn author_prefix(&self) -> (r: &'static str)
        ensures
            r@ == (match *self {
                Language::Ru => "Автор:"@,
                Language::En => "Author:"@,
            }),
    {
        match self {
            Language::Ru => "Автор:",
            Language::En => "Author:",
        }
    }

    pub fn default_equipment_name(&self) -> (r: &'static str)
        ensures
            r@ == (match *self {
                Language::Ru => "Новое оборудование"@,
                Language::En => "New Equipment"@,
            }),
    {
        match self {
            Language::Ru => "Новое оборудование",
            Language::En => "New Equipment",
        }
    }

    pub fn default_unit(&self) -> (r: &'static str)
        ensures
            r@ == (match *self {
                Language::Ru => "В"@,
                Language::En => "V"@,
            }),
    {
        match self {
            Language::Ru => "В",
            Language::En => "V",
        }
    }

    pub fn default_safety_ack(&self) -> (r: &'static str)
        ensures
            r@ == (match *self {
                Language::Ru => "Оборудование обесточено"@,
                Language::En => "Equipment de-energized"@,
            }),
    {
        match self {
            Language::Ru => "Оборудование обесточено",
            Language::En => "Equipment de-energized",
        }
    }

    pub fn default_branch_yes(&self) -> (r: &'static str)
        ensures
            r@ == (match *self {
                Language::Ru => "Да"@,
                Language::En => "Yes"@,
            }),
    {
        match self {
            Language::Ru => "Да",
            Language::En => "Yes",
        }
    }

    pub fn link_normal(&self) -> (r: &'static str)
        ensures
            r@ == (match *self {
                Language::Ru => "Норма"@,
                Language::En => "Normal"@,
            }),
    {
        match self {
            Language::Ru => "Норма",
            Language::En => "Normal",
        }
    }

    pub fn link_abnormal(&self) -> (r: &'static str)
        ensures
            r@ == (match *self {
                Language::Ru => "Отклонение"@,
                Language::En => "Abnormal"@,
            }),
    {
        match self {
            Language::Ru => "Отклонение",
            Language::En => "Abnormal",
        }
    }

    pub fn link_safety(&self) -> (r: &'static str)
        ensures
            r@ == (match *self {
                Language::Ru => "Ознакомлен"@,
                Language::En => "Acknowledged"@,
            }),
    {
        match self {
            Language::Ru => "Ознакомлен",
            Language::En => "Acknowledged",
        }
    }

    pub fn section_general(&self) -> (r: &'static str)
        ensures
            r@ == (match *self {
                Language::Ru => "Основные параметры"@,
                Language::En => "General Properties"@,
            }),
    {
        match self {
            Language::Ru => "Основные параметры",
            Language::En => "General Properties",
        }
    }

    pub fn section_instructions(&self) -> (r: &'static str)
        ensures
            r@ == (match *self {
                Language::Ru => "Инструкция специалисту"@,
                Language::En => "Operator Instructions"@,
            }),
    {
        match self {
            Language::Ru => "Инструкция специалисту",
            Language::En => "Operator Instructions",
        }
    }

    pub fn section_branching(&self) -> (r: &'static str)
        ensures
            r@ == (match *self {
                Language::Ru => "Ветвления и логика"@,
                Language::En => "Branching & Logic"@,
            }),
    {
        match self {
            Language::Ru => "Ветвления и логика",
            Language::En => "Branching & Logic",
        }
    }

    pub fn empty_canvas_title(&self) -> (r: &'static str)
        ensures
            r@ == (match *self {
                Language::Ru => "Схема алгоритма пуста"@,
                Language::En => "Algorithm Flowchart is Empty"@,
            }),
    {
        match self {
            Language::Ru => "Схема алгоритма пуста",
            Language::En => "Algorithm Flowchart is Empty",
        }
    }

    pub fn empty_canvas_hint(&self) -> (r: &'static str)
        ensures
            r@ == (match *self {
                Language::Ru => "Дважды кликните по холсту или нажмите кнопку ниже"@,
                Language::En => "Double-click on the canvas or press the button below"@,
            }),
    {
        match self {
            Language::Ru => "Дважды кликните по холсту или нажмите кнопку ниже",
            Language::En => "Double-click on the canvas or press the button below",
        }
    }

    pub fn empty_canvas_btn(&self) -> (r: &'static str)
        ensures
            r@ == (match *self {
                Language::Ru => "➕ Создать первый блок"@,
                Language::En => "➕ Create Initial Step"@,
            }),
    {
        match self {
            Language::Ru => "➕ Создать первый блок",
            Language::En => "➕ Create Initial Step",
        }
    }

    pub fn inspector_empty_title(&self) -> (r: &'static str)
        ensures
            r@ == (match *self {
                Language::Ru => "Блок не выбран"@,
                Language::En => "No Block Selected"@,
            }),
    {
        match self {
            Language::Ru => "Блок не выбран",
            Language::En => "No Block Selected",
        }
    }

    pub fn inspector_empty_desc(&self) -> (r: &'static str)
        ensures
            r@ == (match *self {
                Language::Ru => "Кликните по любому блоку на схеме для настройки инструкций, замеров и логики переходов."@,
                Language::En => "Click any block on the canvas to configure instructions, measurements, and branching."@,
            }),
    {
        match self {
            Language::Ru => "Кликните по любому блоку на схеме для настройки инструкций, замеров и логики переходов.",
            Language::En => "Click any block on the canvas to configure instructions, measurements, and branching.",
        }
    }

    pub fn cheat_sheet_title(&self) -> (r: &'static str)
        ensures
            r@ == (match *self {
                Language::Ru => "Горячие клавиши и управление:"@,
                Language::En => "Shortcuts & Navigation:"@,
            }),
    {
        match self {
            Language::Ru => "Горячие клавиши и управление:",
            Language::En => "Shortcuts & Navigation:",
        }
    }

    pub fn key_lmb(&self) -> (r: &'static str)
        ensures
            r@ == (match *self {
                Language::Ru => "ЛКМ"@,
                Language::En => "LMB"@,
            }),
    {
        match self {
            Language::Ru => "ЛКМ",
            Language::En => "LMB",
        }
    }

    pub fn key_rmb(&self) -> (r: &'static str)
        ensures
            r@ == (match *self {
                Language::Ru => "ПКМ"@,
                Language::En => "RMB"@,
            }),
    {
        match self {
            Language::Ru => "ПКМ",
            Language::En => "RMB",
        }
    }

    pub fn key_mmb(&self) -> (r: &'static str)
        ensures
            r@ == (match *self {
                Language::Ru => "СКМ"@,
                Language::En => "MMB"@,
            }),
    {
        match self {
            Language::Ru => "СКМ",
            Language::En => "MMB",
        }
    }

    pub fn key_dot(&self) -> (r: &'static str)
        ensures
            r@ == (match *self {
                Language::Ru => "Точка"@,
                Language::En => "Dot"@,
            }),
    {
        match self {
            Language::Ru => "Точка",
            Language::En => "Dot",
        }
    }

    pub fn key_badge(&self) -> (r: &'static str)
        ensures
            r@ == (match *self {
                Language::Ru => "Плашка"@,
                Language::En => "Badge"@,
            }),
    {
        match self {
            Language::Ru => "Плашка",
            Language::En => "Badge",
        }
    }

    pub fn key_wire(&self) -> (r: &'static str)
        ensures
            r@ == (match *self {
                Language::Ru => "Связь"@,
                Language::En => "Wire"@,
            }),
    {
        match self {
            Language::Ru => "Связь",
            Language::En => "Wire",
        }
    }

    pub fn cheat_create_node(&self) -> (r: &'static str)
        ensures
            r@ == (match *self {
                Language::Ru => "Создать блок"@,
                Language::En => "Create step"@,
            }),
    {
        match self {
            Language::Ru => "Создать блок",
            Language::En => "Create step",
        }
    }

    pub fn cheat_drag_wire(&self) -> (r: &'static str)
        ensures
            r@ == (match *self {
                Language::Ru => "Тянуть связь"@,
                Language::En => "Connect wire"@,
            }),
    {
        match self {
            Language::Ru => "Тянуть связь",
            Language::En => "Connect wire",
        }
    }

    pub fn cheat_cut_wire(&self) -> (r: &'static str)
        ensures
            r@ == (match *self {
                Language::Ru => "Разорвать связь"@,
                Language::En => "Disconnect wire"@,
            }),
    {
        match self {
            Language::Ru => "Разорвать связь",
            Language::En => "Disconnect wire",
        }
    }

    pub fn cheat_toggle_wire(&self) -> (r: &'static str)
        ensures
            r@ == (match *self {
                Language::Ru => "Сменить стиль (90° / кривая)"@,
                Language::En => "Toggle style (90° / curved)"@,
            }),
    {
        match self {
            Language::Ru => "Сменить стиль (90° / кривая)",
            Language::En => "Toggle style (90° / curved)",
        }
    }

    pub fn cheat_multiselect(&self) -> (r: &'static str)
        ensures
            r@ == (match *self {
                Language::Ru => "Группа блоков"@,
                Language::En => "Multi-select"@,
            }),
    {
        match self {
            Language::Ru => "Группа блоков",
            Language::En => "Multi-select",
        }
    }

    pub fn cheat_del_selected(&self) -> (r: &'static str)
        ensures
            r@ == (match *self {
                Language::Ru => "Удалить выделенное"@,
                Language::En => "Delete selected"@,
            }),
    {
        match self {
            Language::Ru => "Удалить выделенное",
            Language::En => "Delete selected",
        }
    }

    pub fn cheat_undo_act(&self) -> (r: &'static str)
        ensures
            r@ == (match *self {
                Language::Ru => "Отмена действия"@,
                Language::En => "Undo action"@,
            }),
    {
        match self {
            Language::Ru => "Отмена действия",
            Language::En => "Undo action",
        }
    }

    pub fn cheat_redo_act(&self) -> (r: &'static str)
        ensures
            r@ == (match *self {
                Language::Ru => "Повтор действия"@,
                Language::En => "Redo action"@,
            }),
    {
        match self {
            Language::Ru => "Повтор действия",
            Language::En => "Redo action",
        }
    }

    pub fn cheat_search_act(&self) -> (r: &'static str)
        ensures
            r@ == (match *self {
                Language::Ru => "Быстрый поиск"@,
                Language::En => "Quick search"@,
            }),
    {
        match self {
            Language::Ru => "Быстрый поиск",
            Language::En => "Quick search",
        }
    }

    pub fn cheat_pan_act(&self) -> (r: &'static str)
        ensures
            r@ == (match *self {
                Language::Ru => "Панорама холста"@,
                Language::En => "Pan canvas"@,
            }),
    {
        match self {
            Language::Ru => "Панорама холста",
            Language::En => "Pan canvas",
        }
    }

    pub fn snap_to_grid_on(&self) -> (r: &'static str)
        ensures
            r@ == (match *self {
                Language::Ru => "Магнитная сетка: Вкл (клик для выкл)"@,
                Language::En => "Snap to grid: On (click to disable)"@,
            }),
    {
        match self {
            Language::Ru => "Магнитная сетка: Вкл (клик для выкл)",
            Language::En => "Snap to grid: On (click to disable)",
        }
    }

    pub fn snap_to_grid_off(&self) -> (r: &'static str)
        ensures
            r@ == (match *self {
                Language::Ru => "Магнитная сетка: Выкл (клик для вкл)"@,
                Language::En => "Snap to grid: Off (click to enable)"@,
            }),
    {
        match self {
            Language::Ru => "Магнитная сетка: Выкл (клик для вкл)",
            Language::En => "Snap to grid: Off (click to enable)",
        }
    }

    pub fn btn_export_json(&self) -> (r: &'static str)
        ensures
            r@ == (match *self {
                Language::Ru => "📤 Экспорт файла"@,
                Language::En => "📤 Export File"@,
            }),
    {
        match self {
            Language::Ru => "📤 Экспорт файла",
            Language::En => "📤 Export File",
        }
    }

    pub fn btn_import_json(&self) -> (r: &'static str)
        ensures
            r@ == (match *self {
                Language::Ru => "📥 Импорт файла"@,
                Language::En => "📥 Import File"@,
            }),
    {
        match self {
            Language::Ru => "📥 Импорт файла",
            Language::En => "📥 Import File",
        }
    }

    pub fn export_json_success(&self) -> (r: &'static str)
        ensures
            r@ == (match *self {
                Language::Ru => "✔ Регламент выгружен в JSON!"@,
                Language::En => "✔ Procedure exported to JSON!"@,
            }),
    {
        match self {
            Language::Ru => "✔ Регламент выгружен в JSON!",
            Language::En => "✔ Procedure exported to JSON!",
        }
    }

    pub fn import_json_success(&self) -> (r: &'static str)
        ensures
            r@ == (match *self {
                Language::Ru => "✔ Регламент успешно импортирован!"@,
                Language::En => "✔ Procedure imported successfully!"@,
            }),
    {
        match self {
            Language::Ru => "✔ Регламент успешно импортирован!",
            Language::En => "✔ Procedure imported successfully!",
        }
    }

    pub fn import_json_err(&self) -> (r: &'static str)
        ensures
            r@ == (match *self {
                Language::Ru => "❌ Ошибка: повреждённый файл JSON"@,
                Language::En => "❌ Error: Invalid procedure JSON file"@,
            }),
    {
        match self {
            Language::Ru => "❌ Ошибка: повреждённый файл JSON",
            Language::En => "❌ Error: Invalid procedure JSON file",
        }
    }

    pub fn wire_style_toggle_tip(&self) -> (r: &'static str)
        ensures
            r@ == (match *self {
                Language::Ru => "Стиль связей по умолчанию (ПКМ по стрелке переключает конкретную связь)"@,
                Language::En => "Default wire routing (RMB on a wire toggles individual style)"@,
            }),
    {
        match self {
            Language::Ru => "Стиль связей по умолчанию (ПКМ по стрелке переключает конкретную связь)",
            Language::En => "Default wire routing (RMB on a wire toggles individual style)",
        }
    }

    pub fn status_wire_style_curved(&self) -> (r: &'static str)
        ensures
            r@ == (match *self {
                Language::Ru => "✔ Стиль связи: Плавная кривая"@,
                Language::En => "✔ Wire style: Curved"@,
            }),
    {
        match self {
            Language::Ru => "✔ Стиль связи: Плавная кривая",
            Language::En => "✔ Wire style: Curved",
        }
    }

    pub fn status_wire_style_ortho(&self) -> (r: &'static str)
        ensures
            r@ == (match *self {
                Language::Ru => "✔ Стиль связи: Прямой угол (90°)"@,
                Language::En => "✔ Wire style: Orthogonal (90°)"@,
            }),
    {
        match self {
            Language::Ru => "✔ Стиль связи: Прямой угол (90°)",
            Language::En => "✔ Wire style: Orthogonal (90°)",
        }
    }

    pub fn minimap_links_on(&self) -> (r: &'static str)
        ensures
            r@ == (match *self {
                Language::Ru => "Связи на миникарте: Вкл (клик для выкл)"@,
                Language::En => "Minimap links: On (click to disable)"@,
            }),
    {
        match self {
            Language::Ru => "Связи на миникарте: Вкл (клик для выкл)",
            Language::En => "Minimap links: On (click to disable)",
        }
    }

    pub fn minimap_links_off(&self) -> (r: &'static str)
        ensures
            r@ == (match *self {
                Language::Ru => "Связи на миникарте: Выкл (клик для вкл)"@,
                Language::En => "Minimap links: Off (click to enable)"@,
            }),
    {
        match self {
            Language::Ru => "Связи на миникарте: Выкл (клик для вкл)",
            Language::En => "Minimap links: Off (click to enable)",
        }
    }

    pub fn search_nodes_placeholder(&self) -> (r: &'static str)
        ensures
            r@ == (match *self {
                Language::Ru => "Поиск по узлам..."@,
                Language::En => "Search steps..."@,
            }),
    {
        match self {
            Language::Ru => "Поиск по узлам...",
            Language::En => "Search steps...",
        }
    }

    pub fn search_no_matches(&self) -> (r: &'static str)
        ensures
            r@ == (match *self {
                Language::Ru => "Не найдено"@,
                Language::En => "No matches"@,
            }),
    {
        match self {
            Language::Ru => "Не найдено",
            Language::En => "No matches",
        }
    }

    pub fn export_png_success(&self) -> (r: &'static str)
        ensures
            r@ == (match *self {
                Language::Ru => "✔ Схема сохранена в PNG!"@,
                Language::En => "✔ Flowchart exported to PNG!"@,
            }),
    {
        match self {
            Language::Ru => "✔ Схема сохранена в PNG!",
            Language::En => "✔ Flowchart exported to PNG!",
        }
    }

    pub fn theme_tooltip_to_light(&self) -> (r: &'static str)
        ensures
            r@ == (match *self {
                Language::Ru => "Переключить на светлую тему"@,
                Language::En => "Switch to Light Theme"@,
            }),
    {
        match self {
            Language::Ru => "Переключить на светлую тему",
            Language::En => "Switch to Light Theme",
        }
    }

    pub fn theme_tooltip_to_dark(&self) -> (r: &'static str)
        ensures
            r@ == (match *self {
                Language::Ru => "Переключить на темную тему"@,
                Language::En => "Switch to Dark Theme"@,
            }),
    {
        match self {
            Language::Ru => "Переключить на темную тему",
            Language::En => "Switch to Dark Theme",
        }
    }

    pub fn lint_unreachable(&self) -> (r: &'static str)
        ensures
            r@ == (match *self {
                Language::Ru => "⚠ Узел недостижим (нет входящих связей)"@,
                Language::En => "⚠ Unreachable step (no incoming connections)"@,
            }),
    {
        match self {
            Language::Ru => "⚠ Узел недостижим (нет входящих связей)",
            Language::En => "⚠ Unreachable step (no incoming connections)",
        }
    }

    pub fn lint_incomplete(&self) -> (r: &'static str)
        ensures
            r@ == (match *self {
                Language::Ru => "⚠ Не все ветвления соединены с продолжением"@,
                Language::En => "⚠ Incomplete branches (missing target node)"@,
            }),
    {
        match self {
            Language::Ru => "⚠ Не все ветвления соединены с продолжением",
            Language::En => "⚠ Incomplete branches (missing target node)",
        }
    }

    pub fn ctx_make_start(&self) -> (r: &'static str)
        ensures
            r@ == (match *self {
                Language::Ru => "🚩 Сделать стартовым"@,
                Language::En => "🚩 Set as Start Node"@,
            }),
    {
        match self {
            Language::Ru => "🚩 Сделать стартовым",
            Language::En => "🚩 Set as Start Node",
        }
    }

    pub fn ctx_duplicate(&self) -> (r: &'static str)
        ensures
            r@ == (match *self {
                Language::Ru => "📋 Дублировать"@,
                Language::En => "📋 Duplicate"@,
            }),
    {
        match self {
            Language::Ru => "📋 Дублировать",
            Language::En => "📋 Duplicate",
        }
    }

    pub fn ctx_delete(&self) -> (r: &'static str)
        ensures
            r@ == (match *self {
                Language::Ru => "🗑 Удалить"@,
                Language::En => "🗑 Delete"@,
            }),
    {
        match self {
            Language::Ru => "🗑 Удалить",
            Language::En => "🗑 Delete",
        }
    }

    pub fn ctx_add_here(&self) -> (r: &'static str)
        ensures
            r@ == (match *self {
                Language::Ru => "➕ Добавить блок здесь"@,
                Language::En => "➕ Add Step Here"@,
            }),
    {
        match self {
            Language::Ru => "➕ Добавить блок здесь",
            Language::En => "➕ Add Step Here",
        }
    }

    pub fn confirm_close_title(&self) -> (r: &'static str)
        ensures
            r@ == (match *self {
                Language::Ru => "⚠ Несохраненные изменения"@,
                Language::En => "⚠ Unsaved Changes"@,
            }),
    {
        match self {
            Language::Ru => "⚠ Несохраненные изменения",
            Language::En => "⚠ Unsaved Changes",
        }
    }

    pub fn confirm_close_msg(&self) -> (r: &'static str)
        ensures
            r@ == (match *self {
                Language::Ru => "В текущем регламенте есть несохраненные изменения.\nСохранить их перед выходом?"@,
                Language::En => "There are unsaved changes in the current procedure.\nSave before exiting?"@,
            }),
    {
        match self {
            Language::Ru => "В текущем регламенте есть несохраненные изменения.\nСохранить их перед выходом?",
            Language::En => "There are unsaved changes in the current procedure.\nSave before exiting?",
        }
    }

    pub fn btn_save_and_exit(&self) -> (r: &'static str)
        ensures
            r@ == (match *self {
                Language::Ru => "💾 Сохранить и выйти"@,
                Language::En => "💾 Save & Exit"@,
            }),
    {
        match self {
            Language::Ru => "💾 Сохранить и выйти",
            Language::En => "💾 Save & Exit",
        }
    }

    pub fn btn_discard_and_exit(&self) -> (r: &'static str)
        ensures
            r@ == (match *self {
                Language::Ru => "Выйти без сохранения"@,
                Language::En => "Exit without Saving"@,
            }),
    {
        match self {
            Language::Ru => "Выйти без сохранения",
            Language::En => "Exit without Saving",
        }
    }

    pub fn btn_cancel(&self) -> (r: &'static str)
        ensures
            r@ == (match *self {
                Language::Ru => "Отмена"@,
                Language::En => "Cancel"@,
            }),
    {
        match self {
            Language::Ru => "Отмена",
            Language::En => "Cancel",
        }
    }

    pub fn confirm_delete_title(&self) -> (r: &'static str)
        ensures
            r@ == (match *self {
                Language::Ru => "🗑 Подтверждение удаления"@,
                Language::En => "🗑 Confirm Deletion"@,
            }),
    {
        match self {
            Language::Ru => "🗑 Подтверждение удаления",
            Language::En => "🗑 Confirm Deletion",
        }
    }

    pub fn confirm_delete_msg(&self) -> (r: &'static str)
        ensures
            r@ == (match *self {
                Language::Ru => "Вы действительно хотите удалить этот регламент?"@,
                Language::En => "Are you sure you want to delete this procedure?"@,
            }),
    {
        match self {
            Language::Ru => "Вы действительно хотите удалить этот регламент?",
            Language::En => "Are you sure you want to delete this procedure?",
        }
    }

    pub fn passport_window_title(&self) -> (r: &'static str)
        ensures
            r@ == (match *self {
                Language::Ru => "Паспорт оборудования (Метаданные)"@,
                Language::En => "Equipment Passport (Metadata)"@,
            }),
    {
        match self {
            Language::Ru => "Паспорт оборудования (Метаданные)",
            Language::En => "Equipment Passport (Metadata)",
        }
    }

    pub fn passport_desc(&self) -> (r: &'static str)
        ensures
            r@ == (match *self {
                Language::Ru => "Идентификационные данные станка и технологической карты"@,
                Language::En => "Machine identification and procedure metadata"@,
            }),
    {
        match self {
            Language::Ru => "Идентификационные данные станка и технологической карты",
            Language::En => "Machine identification and procedure metadata",
        }
    }

    pub fn passport_sec_equipment(&self) -> (r: &'static str)
        ensures
            r@ == (match *self {
                Language::Ru => "⚙ Данные оборудования"@,
                Language::En => "⚙ Equipment Details"@,
            }),
    {
        match self {
            Language::Ru => "⚙ Данные оборудования",
            Language::En => "⚙ Equipment Details",
        }
    }

    pub fn passport_sec_doc(&self) -> (r: &'static str)
        ensures
            r@ == (match *self {
                Language::Ru => "📄 Сведения о регламенте"@,
                Language::En => "📄 Procedure Details"@,
            }),
    {
        match self {
            Language::Ru => "📄 Сведения о регламенте",
            Language::En => "📄 Procedure Details",
        }
    }

    pub fn field_name(&self) -> (r: &'static str)
        ensures
            r@ == (match *self {
                Language::Ru => "Название регламента / узла:"@,
                Language::En => "Procedure / Node Name:"@,
            }),
    {
        match self {
            Language::Ru => "Название регламента / узла:",
            Language::En => "Procedure / Node Name:",
        }
    }

    pub fn field_manufacturer(&self) -> (r: &'static str)
        ensures
            r@ == (match *self {
                Language::Ru => "Производитель / Бренд:"@,
                Language::En => "Manufacturer / Brand:"@,
            }),
    {
        match self {
            Language::Ru => "Производитель / Бренд:",
            Language::En => "Manufacturer / Brand:",
        }
    }

    pub fn field_model(&self) -> (r: &'static str)
        ensures
            r@ == (match *self {
                Language::Ru => "Модель / Станок:"@,
                Language::En => "Model / Machine:"@,
            }),
    {
        match self {
            Language::Ru => "Модель / Станок:",
            Language::En => "Model / Machine:",
        }
    }

    pub fn field_type(&self) -> (r: &'static str)
        ensures
            r@ == (match *self {
                Language::Ru => "Тип оборудования:"@,
                Language::En => "Equipment Type:"@,
            }),
    {
        match self {
            Language::Ru => "Тип оборудования:",
            Language::En => "Equipment Type:",
        }
    }

    pub fn field_inv(&self) -> (r: &'static str)
        ensures
            r@ == (match *self {
                Language::Ru => "Инвентарный №:"@,
                Language::En => "Inventory #:"@,
            }),
    {
        match self {
            Language::Ru => "Инвентарный №:",
            Language::En => "Inventory #:",
        }
    }

    pub fn field_author(&self) -> (r: &'static str)
        ensures
            r@ == (match *self {
                Language::Ru => "Автор регламента:"@,
                Language::En => "Author:"@,
            }),
    {
        match self {
            Language::Ru => "Автор регламента:",
            Language::En => "Author:",
        }
    }

    pub fn field_updated_date(&self) -> (r: &'static str)
        ensures
            r@ == (match *self {
                Language::Ru => "Дата изменения:"@,
                Language::En => "Last Updated:"@,
            }),
    {
        match self {
            Language::Ru => "Дата изменения:",
            Language::En => "Last Updated:",
        }
    }

    pub fn btn_apply(&self) -> (r: &'static str)
        ensures
            r@ == (match *self {
                Language::Ru => "✔ Применить"@,
                Language::En => "✔ Apply"@,
            }),
    {
        match self {
            Language::Ru => "✔ Применить",
            Language::En => "✔ Apply",
        }
    }

    pub fn save_success(&self) -> (r: &'static str)
        ensures
            r@ == (match *self {
                Language::Ru => "✔ Сохранено в архив!"@,
                Language::En => "✔ Saved to archive!"@,
            }),
    {
        match self {
            Language::Ru => "✔ Сохранено в архив!",
            Language::En => "✔ Saved to archive!",
        }
    }

    pub fn hint_manufacturer(&self) -> (r: &'static str)
        ensures
            r@ == (match *self {
                Language::Ru => "Haas, Siemens, DMG Mori..."@,
                Language::En => "Haas, Siemens, DMG Mori..."@,
            }),
    {
        match self {
            Language::Ru => "Haas, Siemens, DMG Mori...",
            Language::En => "Haas, Siemens, DMG Mori...",
        }
    }

    pub fn hint_model(&self) -> (r: &'static str)
        ensures
            r@ == (match *self {
                Language::Ru => "VF-2, CTX 310..."@,
                Language::En => "VF-2, CTX 310..."@,
            }),
    {
        match self {
            Language::Ru => "VF-2, CTX 310...",
            Language::En => "VF-2, CTX 310...",
        }
    }

    pub fn hint_type(&self) -> (r: &'static str)
        ensures
            r@ == (match *self {
                Language::Ru => "Фрезерный ЧПУ, Токарный..."@,
                Language::En => "CNC Milling, Lathe..."@,
            }),
    {
        match self {
            Language::Ru => "Фрезерный ЧПУ, Токарный...",
            Language::En => "CNC Milling, Lathe...",
        }
    }

    pub fn hint_inv(&self) -> (r: &'static str)
        ensures
            r@ == (match *self {
                Language::Ru => "ИНВ-04821..."@,
                Language::En => "INV-04821..."@,
            }),
    {
        match self {
            Language::Ru => "ИНВ-04821...",
            Language::En => "INV-04821...",
        }
    }

    pub fn hint_name(&self) -> (r: &'static str)
        ensures
            r@ == (match *self {
                Language::Ru => "ТО шпиндельного узла..."@,
                Language::En => "Spindle Maintenance..."@,
            }),
    {
        match self {
            Language::Ru => "ТО шпиндельного узла...",
            Language::En => "Spindle Maintenance...",
        }
    }

    pub fn hint_author(&self) -> (r: &'static str)
        ensures
            r@ == (match *self {
                Language::Ru => "ФИО инженера..."@,
                Language::En => "Engineer Name..."@,
            }),
    {
        match self {
            Language::Ru => "ФИО инженера...",
            Language::En => "Engineer Name...",
        }
    }

    pub fn search_placeholder(&self) -> (r: &'static str)
        ensures
            r@ == (match *self {
                Language::Ru => "🔍 Поиск по названию, модели, номеру..."@,
                Language::En => "🔍 Search by name, model, number..."@,
            }),
    {
        match self {
            Language::Ru => "🔍 Поиск по названию, модели, номеру...",
            Language::En => "🔍 Search by name, model, number...",
        }
    }

    pub fn btn_refresh(&self) -> (r: &'static str)
        ensures
            r@ == (match *self {
                Language::Ru => "🔄 Обновить"@,
                Language::En => "🔄 Refresh"@,
            }),
    {
        match self {
            Language::Ru => "🔄 Обновить",
            Language::En => "🔄 Refresh",
        }
    }

    pub fn empty_archive(&self) -> (r: &'static str)
        ensures
            r@ == (match *self {
                Language::Ru => "В архиве пока нет регламентов. Создайте первый в конструкторе!"@,
                Language::En => "No procedures in library yet. Create one in the builder!"@,
            }),
    {
        match self {
            Language::Ru => "В архиве пока нет регламентов. Создайте первый в конструкторе!",
            Language::En => "No procedures in library yet. Create one in the builder!",
        }
    }

    pub fn not_found(&self) -> (r: &'static str)
        ensures
            r@ == (match *self {
                Language::Ru => "В выбранной категории ничего не найдено."@,
                Language::En => "Nothing found in selected category."@,
            }),
    {
        match self {
            Language::Ru => "В выбранной категории ничего не найдено.",
            Language::En => "Nothing found in selected category.",
        }
    }

    pub fn all_equipment(&self) -> (r: &'static str)
        ensures
            r@ == (match *self {
                Language::Ru => "Все производители"@,
                Language::En => "All Manufacturers"@,
            }),
    {
        match self {
            Language::Ru => "Все производители",
            Language::En => "All Manufacturers",
        }
    }

    pub fn no_manufacturer(&self) -> (r: &'static str)
        ensures
            r@ == (match *self {
                Language::Ru => "Без бренда"@,
                Language::En => "Unspecified Brand"@,
            }),
    {
        match self {
            Language::Ru => "Без бренда",
            Language::En => "Unspecified Brand",
        }
    }

    pub fn no_model(&self) -> (r: &'static str)
        ensures
            r@ == (match *self {
                Language::Ru => "Общее"@,
                Language::En => "General"@,
            }),
    {
        match self {
            Language::Ru => "Общее",
            Language::En => "General",
        }
    }

    pub fn card_steps(&self) -> (r: &'static str)
        ensures
            r@ == (match *self {
                Language::Ru => "шагов"@,
                Language::En => "steps"@,
            }),
    {
        match self {
            Language::Ru => "шагов",
            Language::En => "steps",
        }
    }

    pub fn card_updated(&self) -> (r: &'static str)
        ensures
            r@ == (match *self {
                Language::Ru => "Изменен:"@,
                Language::En => "Updated:"@,
            }),
    {
        match self {
            Language::Ru => "Изменен:",
            Language::En => "Updated:",
        }
    }

    pub fn btn_open_builder(&self) -> (r: &'static str)
        ensures
            r@ == (match *self {
                Language::Ru => "🛠 Редактировать"@,
                Language::En => "🛠 Edit"@,
            }),
    {
        match self {
            Language::Ru => "🛠 Редактировать",
            Language::En => "🛠 Edit",
        }
    }

    pub fn btn_run_diag(&self) -> (r: &'static str)
        ensures
            r@ == (match *self {
                Language::Ru => "▶ Диагностика"@,
                Language::En => "▶ Run"@,
            }),
    {
        match self {
            Language::Ru => "▶ Диагностика",
            Language::En => "▶ Run",
        }
    }

    pub fn btn_delete_archive(&self) -> (r: &'static str)
        ensures
            r@ == (match *self {
                Language::Ru => "🗑 Удалить"@,
                Language::En => "🗑 Delete"@,
            }),
    {
        match self {
            Language::Ru => "🗑 Удалить",
            Language::En => "🗑 Delete",
        }
    }

    pub fn badge_choice(&self) -> (r: &'static str)
        ensures
            r@ == (match *self {
                Language::Ru => "ВЫБОР"@,
                Language::En => "CHOICE"@,
            }),
    {
        match self {
            Language::Ru => "ВЫБОР",
            Language::En => "CHOICE",
        }
    }

    pub fn badge_measure(&self) -> (r: &'static str)
        ensures
            r@ == (match *self {
                Language::Ru => "ЗАМЕР"@,
                Language::En => "MEASURE"@,
            }),
    {
        match self {
            Language::Ru => "ЗАМЕР",
            Language::En => "MEASURE",
        }
    }

    pub fn badge_safety(&self) -> (r: &'static str)
        ensures
            r@ == (match *self {
                Language::Ru => "ТБ ⚠"@,
                Language::En => "SAFETY ⚠"@,
            }),
    {
        match self {
            Language::Ru => "ТБ ⚠",
            Language::En => "SAFETY ⚠",
        }
    }

    pub fn badge_active(&self) -> (r: &'static str)
        ensures
            r@ == (match *self {
                Language::Ru => "АКТИВЕН ▶"@,
                Language::En => "ACTIVE ▶"@,
            }),
    {
        match self {
            Language::Ru => "АКТИВЕН ▶",
            Language::En => "ACTIVE ▶",
        }
    }

    pub fn badge_done(&self) -> (r: &'static str)
        ensures
            r@ == (match *self {
                Language::Ru => "ВЫПОЛНЕНО ✔"@,
                Language::En => "DONE ✔"@,
            }),
    {
        match self {
            Language::Ru => "ВЫПОЛНЕНО ✔",
            Language::En => "DONE ✔",
        }
    }

    pub fn no_desc(&self) -> (r: &'static str)
        ensures
            r@ == (match *self {
                Language::Ru => "Инструкция не задана"@,
                Language::En => "No instruction given"@,
            }),
    {
        match self {
            Language::Ru => "Инструкция не задана",
            Language::En => "No instruction given",
        }
    }

    pub fn photo_attached(&self) -> (r: &'static str)
        ensures
            r@ == (match *self {
                Language::Ru => "🖼 Фото прикреплено"@,
                Language::En => "🖼 Photo attached"@,
            }),
    {
        match self {
            Language::Ru => "🖼 Фото прикреплено",
            Language::En => "🖼 Photo attached",
        }
    }

    pub fn inspector_heading(&self) -> (r: &'static str)
        ensures
            r@ == (match *self {
                Language::Ru => "Параметры шага"@,
                Language::En => "Step Inspector"@,
            }),
    {
        match self {
            Language::Ru => "Параметры шага",
            Language::En => "Step Inspector",
        }
    }

    pub fn multi_select_hint(&self) -> (r: &'static str)
        ensures
            r@ == (match *self {
                Language::Ru => "Выделено блоков: "@,
                Language::En => "Selected blocks: "@,
            }),
    {
        match self {
            Language::Ru => "Выделено блоков: ",
            Language::En => "Selected blocks: ",
        }
    }

    pub fn start_node(&self) -> (r: &'static str)
        ensures
            r@ == (match *self {
                Language::Ru => "🚩 Стартовый узел"@,
                Language::En => "🚩 Start Step"@,
            }),
    {
        match self {
            Language::Ru => "🚩 Стартовый узел",
            Language::En => "🚩 Start Step",
        }
    }

    pub fn delete_btn(&self) -> (r: &'static str)
        ensures
            r@ == (match *self {
                Language::Ru => "🗑 Удалить блок"@,
                Language::En => "🗑 Delete Step"@,
            }),
    {
        match self {
            Language::Ru => "🗑 Удалить блок",
            Language::En => "🗑 Delete Step",
        }
    }

    pub fn block_title(&self) -> (r: &'static str)
        ensures
            r@ == (match *self {
                Language::Ru => "Название шага:"@,
                Language::En => "Step Title:"@,
            }),
    {
        match self {
            Language::Ru => "Название шага:",
            Language::En => "Step Title:",
        }
    }

    pub fn behavior_type(&self) -> (r: &'static str)
        ensures
            r@ == (match *self {
                Language::Ru => "Тип операции:"@,
                Language::En => "Operation Type:"@,
            }),
    {
        match self {
            Language::Ru => "Тип операции:",
            Language::En => "Operation Type:",
        }
    }

    pub fn kind_standard(&self) -> (r: &'static str)
        ensures
            r@ == (match *self {
                Language::Ru => "Выбор вариантов действий"@,
                Language::En => "Standard Branching"@,
            }),
    {
        match self {
            Language::Ru => "Выбор вариантов действий",
            Language::En => "Standard Branching",
        }
    }

    pub fn kind_measurement(&self) -> (r: &'static str)
        ensures
            r@ == (match *self {
                Language::Ru => "Замер параметра (с допуском)"@,
                Language::En => "Measurement Check"@,
            }),
    {
        match self {
            Language::Ru => "Замер параметра (с допуском)",
            Language::En => "Measurement Check",
        }
    }

    pub fn kind_safety(&self) -> (r: &'static str)
        ensures
            r@ == (match *self {
                Language::Ru => "Требование безопасности (ТБ)"@,
                Language::En => "Safety Requirement"@,
            }),
    {
        match self {
            Language::Ru => "Требование безопасности (ТБ)",
            Language::En => "Safety Requirement",
        }
    }

    pub fn photo_btn(&self) -> (r: &'static str)
        ensures
            r@ == (match *self {
                Language::Ru => "📷 Прикрепить фото"@,
                Language::En => "📷 Attach Photo"@,
            }),
    {
        match self {
            Language::Ru => "📷 Прикрепить фото",
            Language::En => "📷 Attach Photo",
        }
    }

    pub fn add_branch(&self) -> (r: &'static str)
        ensures
            r@ == (match *self {
                Language::Ru => "➕ Добавить вариант"@,
                Language::En => "➕ Add Option"@,
            }),
    {
        match self {
            Language::Ru => "➕ Добавить вариант",
            Language::En => "➕ Add Option",
        }
    }

    pub fn branch_text(&self) -> (r: &'static str)
        ensures
            r@ == (match *self {
                Language::Ru => "Текст:"@,
                Language::En => "Text:"@,
            }),
    {
        match self {
            Language::Ru => "Текст:",
            Language::En => "Text:",
        }
    }

    pub fn finish_diag(&self) -> (r: &'static str)
        ensures
            r@ == (match *self {
                Language::Ru => "🏁 Завершить регламент"@,
                Language::En => "🏁 Finish Procedure"@,
            }),
    {
        match self {
            Language::Ru => "🏁 Завершить регламент",
            Language::En => "🏁 Finish Procedure",
        }
    }

    pub fn not_selected(&self) -> (r: &'static str)
        ensures
            r@ == (match *self {
                Language::Ru => "Не выбрано"@,
                Language::En => "Not Selected"@,
            }),
    {
        match self {
            Language::Ru => "Не выбрано",
            Language::En => "Not Selected",
        }
    }

    pub fn unit(&self) -> (r: &'static str)
        ensures
            r@ == (match *self {
                Language::Ru => "Ед. изм:"@,
                Language::En => "Unit:"@,
            }),
    {
        match self {
            Language::Ru => "Ед. изм:",
            Language::En => "Unit:",
        }
    }

    pub fn min_val(&self) -> (r: &'static str)
        ensures
            r@ == (match *self {
                Language::Ru => "Мин:"@,
                Language::En => "Min:"@,
            }),
    {
        match self {
            Language::Ru => "Мин:",
            Language::En => "Min:",
        }
    }

    pub fn max_val(&self) -> (r: &'static str)
        ensures
            r@ == (match *self {
                Language::Ru => "Макс:"@,
                Language::En => "Max:"@,
            }),
    {
        match self {
            Language::Ru => "Макс:",
            Language::En => "Max:",
        }
    }

    pub fn goto_normal(&self) -> (r: &'static str)
        ensures
            r@ == (match *self {
                Language::Ru => "➔ В норме перейти к:"@,
                Language::En => "➔ If normal go to:"@,
            }),
    {
        match self {
            Language::Ru => "➔ В норме перейти к:",
            Language::En => "➔ If normal go to:",
        }
    }

    pub fn goto_abnormal(&self) -> (r: &'static str)
        ensures
            r@ == (match *self {
                Language::Ru => "➔ При отклонении к:"@,
                Language::En => "➔ If abnormal go to:"@,
            }),
    {
        match self {
            Language::Ru => "➔ При отклонении к:",
            Language::En => "➔ If abnormal go to:",
        }
    }

    pub fn safety_ack(&self) -> (r: &'static str)
        ensures
            r@ == (match *self {
                Language::Ru => "Текст чекбокса подтверждения:"@,
                Language::En => "Confirmation check text:"@,
            }),
    {
        match self {
            Language::Ru => "Текст чекбокса подтверждения:",
            Language::En => "Confirmation check text:",
        }
    }

    pub fn goto_after_ack(&self) -> (r: &'static str)
        ensures
            r@ == (match *self {
                Language::Ru => "➔ После подтверждения к:"@,
                Language::En => "➔ After confirmation go to:"@,
            }),
    {
        match self {
            Language::Ru => "➔ После подтверждения к:",
            Language::En => "➔ After confirmation go to:",
        }
    }

    pub fn runner_heading(&self) -> (r: &'static str)
        ensures
            r@ == (match *self {
                Language::Ru => "Пульт диагностики"@,
                Language::En => "Diagnostic Console"@,
            }),
    {
        match self {
            Language::Ru => "Пульт диагностики",
            Language::En => "Diagnostic Console",
        }
    }

    pub fn step_back(&self) -> (r: &'static str)
        ensures
            r@ == (match *self {
                Language::Ru => "⬅ Назад"@,
                Language::En => "⬅ Back"@,
            }),
    {
        match self {
            Language::Ru => "⬅ Назад",
            Language::En => "⬅ Back",
        }
    }

    pub fn reset_test(&self) -> (r: &'static str)
        ensures
            r@ == (match *self {
                Language::Ru => "🔄 Сброс"@,
                Language::En => "🔄 Reset"@,
            }),
    {
        match self {
            Language::Ru => "🔄 Сброс",
            Language::En => "🔄 Reset",
        }
    }

    pub fn focus_step(&self) -> (r: &'static str)
        ensures
            r@ == (match *self {
                Language::Ru => "🎯 Центрировать"@,
                Language::En => "🎯 Center"@,
            }),
    {
        match self {
            Language::Ru => "🎯 Центрировать",
            Language::En => "🎯 Center",
        }
    }

    pub fn route_history(&self) -> (r: &'static str)
        ensures
            r@ == (match *self {
                Language::Ru => "Маршрут проверки:"@,
                Language::En => "Audit Trail:"@,
            }),
    {
        match self {
            Language::Ru => "Маршрут проверки:",
            Language::En => "Audit Trail:",
        }
    }

    pub fn crumb_step(&self) -> (r: &'static str)
        ensures
            r@ == (match *self {
                Language::Ru => "Шаг"@,
                Language::En => "Step"@,
            }),
    {
        match self {
            Language::Ru => "Шаг",
            Language::En => "Step",
        }
    }

    pub fn crumb_current(&self) -> (r: &'static str)
        ensures
            r@ == (match *self {
                Language::Ru => "Текущий"@,
                Language::En => "Current"@,
            }),
    {
        match self {
            Language::Ru => "Текущий",
            Language::En => "Current",
        }
    }

    pub fn crumb_rollback_tip(&self) -> (r: &'static str)
        ensures
            r@ == (match *self {
                Language::Ru => "Кликните для отката к этому шагу"@,
                Language::En => "Click to roll back to this step"@,
            }),
    {
        match self {
            Language::Ru => "Кликните для отката к этому шагу",
            Language::En => "Click to roll back to this step",
        }
    }

    pub fn diag_complete(&self) -> (r: &'static str)
        ensures
            r@ == (match *self {
                Language::Ru => "🏁 Регламент проверки завершен!"@,
                Language::En => "🏁 Diagnostic procedure completed!"@,
            }),
    {
        match self {
            Language::Ru => "🏁 Регламент проверки завершен!",
            Language::En => "🏁 Diagnostic procedure completed!",
        }
    }

    pub fn start_over(&self) -> (r: &'static str)
        ensures
            r@ == (match *self {
                Language::Ru => "🔄 Пройти заново"@,
                Language::En => "🔄 Run Again"@,
            }),
    {
        match self {
            Language::Ru => "🔄 Пройти заново",
            Language::En => "🔄 Run Again",
        }
    }

    pub fn current_node_label(&self) -> (r: &'static str)
        ensures
            r@ == (match *self {
                Language::Ru => "Текущий шаг:"@,
                Language::En => "Current Step:"@,
            }),
    {
        match self {
            Language::Ru => "Текущий шаг:",
            Language::En => "Current Step:",
        }
    }

    pub fn choose_action(&self) -> (r: &'static str)
        ensures
            r@ == (match *self {
                Language::Ru => "Выберите результат проверки:"@,
                Language::En => "Select verification result:"@,
            }),
    {
        match self {
            Language::Ru => "Выберите результат проверки:",
            Language::En => "Select verification result:",
        }
    }

    pub fn final_point(&self) -> (r: &'static str)
        ensures
            r@ == (match *self {
                Language::Ru => "✔ Финальная точка регламента."@,
                Language::En => "✔ Terminal step reached."@,
            }),
    {
        match self {
            Language::Ru => "✔ Финальная точка регламента.",
            Language::En => "✔ Terminal step reached.",
        }
    }

    pub fn finish_diag_btn(&self) -> (r: &'static str)
        ensures
            r@ == (match *self {
                Language::Ru => "🏁 Завершить регламент"@,
                Language::En => "🏁 Finish Procedure"@,
            }),
    {
        match self {
            Language::Ru => "🏁 Завершить регламент",
            Language::En => "🏁 Finish Procedure",
        }
    }

    pub fn in_range_msg(&self) -> (r: &'static str)
        ensures
            r@ == (match *self {
                Language::Ru => "в допуске."@,
                Language::En => "within tolerance."@,
            }),
    {
        match self {
            Language::Ru => "в допуске.",
            Language::En => "within tolerance.",
        }
    }

    pub fn accept_normal(&self) -> (r: &'static str)
        ensures
            r@ == (match *self {
                Language::Ru => "Принять: В норме ➔"@,
                Language::En => "Accept: Normal ➔"@,
            }),
    {
        match self {
            Language::Ru => "Принять: В норме ➔",
            Language::En => "Accept: Normal ➔",
        }
    }

    pub fn accept_abnormal(&self) -> (r: &'static str)
        ensures
            r@ == (match *self {
                Language::Ru => "Принять: Отклонение ➔"@,
                Language::En => "Accept: Abnormal ➔"@,
            }),
    {
        match self {
            Language::Ru => "Принять: Отклонение ➔",
            Language::En => "Accept: Abnormal ➔",
        }
    }

    pub fn safety_title(&self) -> (r: &'static str)
        ensures
            r@ == (match *self {
                Language::Ru => "⚠ ТРЕБОВАНИЕ БЕЗОПАСНОСТИ"@,
                Language::En => "⚠ SAFETY REQUIREMENT"@,
            }),
    {
        match self {
            Language::Ru => "⚠ ТРЕБОВАНИЕ БЕЗОПАСНОСТИ",
            Language::En => "⚠ SAFETY REQUIREMENT",
        }
    }

    pub fn confirm_and_proceed(&self) -> (r: &'static str)
        ensures
            r@ == (match *self {
                Language::Ru => "Подтвердить и продолжить ➔"@,
                Language::En => "Confirm & Proceed ➔"@,
            }),
    {
        match self {
            Language::Ru => "Подтвердить и продолжить ➔",
            Language::En => "Confirm & Proceed ➔",
        }
    }

    /// The default title of the `count`-th step.
    pub fn step_default_name(&self, count: usize) -> (r: String)
        ensures
            r@ == (match *self {
                Language::Ru => "Шаг "@,
                Language::En => "Step "@,
            }) + decimal(count as nat),
    {
        let mut s = match self {
            Language::Ru => String::from_str("Шаг "),
            Language::En => String::from_str("Step "),
        };
        let digits = decimal_string(count);
        s.append(digits.as_str());
        s
    }

    /// The title of a copy of a step titled `title`.
    pub fn copy_suffix(&self, title: &str) -> (r: String)
        ensures
            r@ == title@ + (match *self {
                Language::Ru => " (копия)"@,
                Language::En => " (copy)"@,
            }),
    {
        let s = String::from_str(title);
        match self {
            Language::Ru => s.concat(" (копия)"),
            Language::En => s.concat(" (copy)"),
        }
    }

    /// The default text of the `index`-th option of a step.
    pub fn default_option_link_text(&self, index: usize) -> (r: String)
        ensures
            r@ == (match *self {
                Language::Ru => "Переход "@,
                Language::En => "Option "@,
            }) + decimal(index as nat),
    {
        let mut s = match self {
            Language::Ru => String::from_str("Переход "),
            Language::En => String::from_str("Option "),
        };
        let digits = decimal_string(index);
        s.append(digits.as_str());
        s
    }
}

} // verus!
